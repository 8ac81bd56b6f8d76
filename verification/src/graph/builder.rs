//! Build a [`DepGraph`] from a validated [`Board`], inferring implicit
//! dependencies and validating explicit ones.

use vstd::prelude::*;
use crate::error::{ValidationError, messages};
use crate::model::{Board, Gpio, GpioMode, I2cBus, I2cDevice, SpiBus, SpiDevice, Uart};
use crate::text::{
    cat, dec, join, join_all, lemma_cat_contains, lemma_cat_push, lemma_take_map_push,
    push_dec, push_str, str_eq,
};
use super::DepGraph;
use super::cycle::first_cycle;
use super::sort::{views, lemma_views_push};

verus! {

/// A dependency edge as a pair of labels: (dependent, dependency).
pub open spec fn edge_views(v: Seq<(String, String)>) -> Seq<(Seq<char>, Seq<char>)> {
    v.map_values(|e: (String, String)| (e.0@, e.1@))
}

/// Pushing a pair pushes its views.
pub proof fn lemma_edge_views_push(v: Seq<(String, String)>, e: (String, String))
    ensures
        edge_views(v.push(e)) == edge_views(v).push((e.0@, e.1@)),
        edge_views(v).len() == v.len(),
{
    assert(edge_views(v.push(e)) =~= edge_views(v).push((e.0@, e.1@)));
}

/// The first GPIO declared on `pin`.
pub open spec fn first_gpio(gs: Seq<Gpio>, pin: u32) -> Option<Gpio>
    decreases gs.len(),
{
    if gs.len() == 0 {
        None
    } else if gs[0].pin == pin {
        Some(gs[0])
    } else {
        first_gpio(gs.drop_first(), pin)
    }
}

proof fn lemma_first_gpio(gs: Seq<Gpio>, pin: u32, i: int)
    requires
        0 <= i < gs.len(),
        gs[i].pin == pin,
        forall|k: int| 0 <= k < i ==> gs[k].pin != pin,
    ensures
        first_gpio(gs, pin) == Some(gs[i]),
    decreases i,
{
    if i > 0 {
        lemma_first_gpio(gs.drop_first(), pin, i - 1);
    }
}

proof fn lemma_first_gpio_none(gs: Seq<Gpio>, pin: u32)
    requires
        forall|k: int| 0 <= k < gs.len() ==> gs[k].pin != pin,
    ensures
        first_gpio(gs, pin) is None,
    decreases gs.len(),
{
    if gs.len() > 0 {
        lemma_first_gpio_none(gs.drop_first(), pin);
    }
}

proof fn lemma_first_gpio_member(gs: Seq<Gpio>, pin: u32)
    requires
        first_gpio(gs, pin) is Some,
    ensures
        exists|i: int| 0 <= i < gs.len() && gs[i] == first_gpio(gs, pin)->0,
    decreases gs.len(),
{
    if gs[0].pin != pin {
        lemma_first_gpio_member(gs.drop_first(), pin);
        let i = choose|i: int| 0 <= i < gs.drop_first().len() && gs.drop_first()[i] == first_gpio(gs, pin)->0;
        assert(gs[i + 1] == first_gpio(gs, pin)->0);
    }
}

/// The labels a bus contributes: the bus, then its devices.
pub open spec fn i2c_bus_labels(b: I2cBus) -> Seq<Seq<char>> {
    seq![b.label@] + b.devices@.map_values(|d: I2cDevice| d.label@)
}

/// The labels a bus contributes: the bus, then its devices.
pub open spec fn spi_bus_labels(b: SpiBus) -> Seq<Seq<char>> {
    seq![b.label@] + b.devices@.map_values(|d: SpiDevice| d.label@)
}

/// Every peripheral label in registration order: GPIOs, I2C buses with their
/// devices, SPI buses with their devices, UARTs.
pub open spec fn board_labels(board: &Board) -> Seq<Seq<char>> {
    board.gpios@.map_values(|g: Gpio| g.label@) + cat(
        board.i2c_buses@.map_values(|b: I2cBus| i2c_bus_labels(b)),
    ) + cat(board.spi_buses@.map_values(|b: SpiBus| spi_bus_labels(b))) + board.uarts@.map_values(
        |u: Uart| u.label@,
    )
}

/// Registering labels one by one, skipping those already present.
pub open spec fn registered(ls: Seq<Seq<char>>) -> Seq<Seq<char>>
    decreases ls.len(),
{
    if ls.len() == 0 {
        Seq::empty()
    } else {
        let r = registered(ls.drop_last());
        if r.contains(ls.last()) {
            r
        } else {
            r.push(ls.last())
        }
    }
}

pub(crate) proof fn lemma_registered_contains(ls: Seq<Seq<char>>, x: Seq<char>)
    ensures
        registered(ls).contains(x) == ls.contains(x),
    decreases ls.len(),
{
    if ls.len() > 0 {
        lemma_registered_contains(ls.drop_last(), x);
        crate::text::lemma_push_contains(ls.drop_last(), ls.last(), x);
        assert(ls.drop_last().push(ls.last()) =~= ls);
        crate::text::lemma_push_contains(registered(ls.drop_last()), ls.last(), x);
    }
}

/// The edge a `power_pin` adds: to the GPIO on that pin, if it is an output.
pub open spec fn power_edges(board: &Board, dl: Seq<char>, pp: Option<u32>) -> Seq<(Seq<char>, Seq<char>)> {
    match pp {
        None => Seq::empty(),
        Some(p) => match first_gpio(board.gpios@, p) {
            Some(g) => if g.mode == GpioMode::Output {
                seq![(dl, g.label@)]
            } else {
                Seq::empty()
            },
            None => Seq::empty(),
        },
    }
}

/// The error a `power_pin` raises when no GPIO output is on that pin.
pub open spec fn power_errors(board: &Board, kind: Seq<char>, dl: Seq<char>, pp: Option<u32>) -> Seq<Seq<char>> {
    match pp {
        None => Seq::empty(),
        Some(p) => match first_gpio(board.gpios@, p) {
            Some(g) => if g.mode == GpioMode::Output {
                Seq::empty()
            } else {
                seq![kind + " '"@ + dl + "' has power_pin "@ + dec(p as nat) + ", but GPIO '"@ + g.label@
                    + "' on that pin is not configured as an output. A power pin must be a GPIO output."@]
            },
            None => seq![kind + " '"@ + dl + "' has power_pin "@ + dec(p as nat)
                + ", but no GPIO output is declared on that pin. Declare a `[[gpio]]` with mode \"output\" on pin "@
                + dec(p as nat) + "."@],
        },
    }
}

/// The edge an explicit `depends_on` adds, if it names a peripheral.
pub open spec fn depends_edges(board: &Board, dl: Seq<char>, dep: Option<String>) -> Seq<(Seq<char>, Seq<char>)> {
    match dep {
        None => Seq::empty(),
        Some(t) => if board_labels(board).contains(t@) {
            seq![(dl, t@)]
        } else {
            Seq::empty()
        },
    }
}

/// The error an explicit `depends_on` raises when it names no peripheral.
pub open spec fn depends_errors(board: &Board, kind: Seq<char>, dl: Seq<char>, dep: Option<String>) -> Seq<Seq<char>> {
    match dep {
        None => Seq::empty(),
        Some(t) => if board_labels(board).contains(t@) {
            Seq::empty()
        } else {
            seq![kind + " '"@ + dl + "' depends_on '"@ + t@
                + "', which is not a declared peripheral label."@]
        },
    }
}

/// The edges of one I2C device: its bus, its power pin, its `depends_on`.
pub open spec fn i2c_device_edges(board: &Board, b: I2cBus, d: I2cDevice) -> Seq<(Seq<char>, Seq<char>)> {
    seq![(d.label@, b.label@)] + power_edges(board, d.label@, d.power_pin) + depends_edges(
        board,
        d.label@,
        d.depends_on,
    )
}

/// The errors of one I2C device.
pub open spec fn i2c_device_errors(board: &Board, d: I2cDevice) -> Seq<Seq<char>> {
    power_errors(board, "i2c device"@, d.label@, d.power_pin) + depends_errors(
        board,
        "i2c device"@,
        d.label@,
        d.depends_on,
    )
}

/// The chip-select edge of an SPI device: to a GPIO declared on its CS pin.
pub open spec fn cs_edges(board: &Board, d: SpiDevice) -> Seq<(Seq<char>, Seq<char>)> {
    match first_gpio(board.gpios@, d.cs_pin) {
        Some(g) => seq![(d.label@, g.label@)],
        None => Seq::empty(),
    }
}

/// The edges of one SPI device: its bus, its chip select, its power pin, its
/// `depends_on`.
pub open spec fn spi_device_edges(board: &Board, b: SpiBus, d: SpiDevice) -> Seq<(Seq<char>, Seq<char>)> {
    seq![(d.label@, b.label@)] + cs_edges(board, d) + power_edges(board, d.label@, d.power_pin)
        + depends_edges(board, d.label@, d.depends_on)
}

/// The errors of one SPI device.
pub open spec fn spi_device_errors(board: &Board, d: SpiDevice) -> Seq<Seq<char>> {
    power_errors(board, "spi device"@, d.label@, d.power_pin) + depends_errors(
        board,
        "spi device"@,
        d.label@,
        d.depends_on,
    )
}

/// The edges of all devices of one I2C bus.
pub open spec fn i2c_bus_edges(board: &Board, b: I2cBus) -> Seq<(Seq<char>, Seq<char>)> {
    cat(b.devices@.map_values(|d: I2cDevice| i2c_device_edges(board, b, d)))
}

/// The edges of all devices of one SPI bus.
pub open spec fn spi_bus_edges(board: &Board, b: SpiBus) -> Seq<(Seq<char>, Seq<char>)> {
    cat(b.devices@.map_values(|d: SpiDevice| spi_device_edges(board, b, d)))
}

/// Every dependency edge of the board, I2C devices first.
pub open spec fn board_edges(board: &Board) -> Seq<(Seq<char>, Seq<char>)> {
    cat(board.i2c_buses@.map_values(|b: I2cBus| i2c_bus_edges(board, b))) + cat(
        board.spi_buses@.map_values(|b: SpiBus| spi_bus_edges(board, b)),
    )
}

/// The errors of all devices of one I2C bus.
pub open spec fn i2c_bus_errors(board: &Board, b: I2cBus) -> Seq<Seq<char>> {
    cat(b.devices@.map_values(|d: I2cDevice| i2c_device_errors(board, d)))
}

/// The errors of all devices of one SPI bus.
pub open spec fn spi_bus_errors(board: &Board, b: SpiBus) -> Seq<Seq<char>> {
    cat(b.devices@.map_values(|d: SpiDevice| spi_device_errors(board, d)))
}

/// Every `power_pin` / `depends_on` error of the board, in declaration order.
pub open spec fn board_link_errors(board: &Board) -> Seq<Seq<char>> {
    cat(board.i2c_buses@.map_values(|b: I2cBus| i2c_bus_errors(board, b))) + cat(
        board.spi_buses@.map_values(|b: SpiBus| spi_bus_errors(board, b)),
    )
}

/// `p` is a cycle along the given edges.
pub open spec fn edge_cycle(edges: Seq<(Seq<char>, Seq<char>)>, p: Seq<Seq<char>>) -> bool {
    &&& p.len() >= 2
    &&& p[0] == p.last()
    &&& forall|k: int| 0 <= k < p.len() - 1 ==> #[trigger] edges.contains((p[k], p[k + 1]))
}

/// The cycle the dependency graph of a board reports: the first one a
/// depth-first search meets, visiting labels alphabetically (see
/// [`first_cycle`]).
pub open spec fn board_cycle(board: &Board) -> Option<Seq<Seq<char>>> {
    first_cycle(board_labels(board).to_set(), board_edges(board).to_set(), registered(board_labels(board)).len())
}

/// The message reporting a dependency cycle.
pub open spec fn cycle_message(p: Seq<Seq<char>>) -> Seq<char> {
    "Circular dependency detected in initialization order\n  "@ + join(p, " -> "@)
        + "\n\n  These peripherals form a cycle and cannot be initialized in any valid order.\n  Review the `depends_on` fields in your config."@
}

/// Both ends of every edge are labels of the board.
pub open spec fn endpoints_known(board: &Board, es: Seq<(Seq<char>, Seq<char>)>) -> bool {
    forall|k: int| 0 <= k < es.len() ==> board_labels(board).contains(#[trigger] es[k].0) && board_labels(board).contains(es[k].1)
}

proof fn lemma_in_gpios(board: &Board, x: Seq<char>)
    requires
        board.gpios@.map_values(|g: Gpio| g.label@).contains(x),
    ensures
        board_labels(board).contains(x),
{
    let gl = board.gpios@.map_values(|g: Gpio| g.label@);
    let k = gl.index_of(x);
    assert(board_labels(board)[k] == x);
}

proof fn lemma_gpio_known(board: &Board, i: int)
    requires
        0 <= i < board.gpios@.len(),
    ensures
        board_labels(board).contains(board.gpios@[i].label@),
{
    let gl = board.gpios@.map_values(|g: Gpio| g.label@);
    assert(gl[i] == board.gpios@[i].label@);
    lemma_in_gpios(board, board.gpios@[i].label@);
}

proof fn lemma_i2c_device_known(board: &Board, bi: int, di: int)
    requires
        0 <= bi < board.i2c_buses@.len(),
        0 <= di < board.i2c_buses@[bi].devices@.len(),
    ensures
        board_labels(board).contains(board.i2c_buses@[bi].label@),
        board_labels(board).contains(board.i2c_buses@[bi].devices@[di].label@),
{
    let b = board.i2c_buses@[bi];
    let il = board.i2c_buses@.map_values(|b: I2cBus| i2c_bus_labels(b));
    let gl = board.gpios@.map_values(|g: Gpio| g.label@);
    assert(il[bi][0] == b.label@);
    assert(il[bi][1 + di] == b.devices@[di].label@);
    lemma_cat_contains(il, bi, b.label@);
    lemma_cat_contains(il, bi, b.devices@[di].label@);
    let k1 = cat(il).index_of(b.label@);
    let k2 = cat(il).index_of(b.devices@[di].label@);
    assert(board_labels(board)[gl.len() + k1] == b.label@);
    assert(board_labels(board)[gl.len() + k2] == b.devices@[di].label@);
}

proof fn lemma_spi_device_known(board: &Board, bi: int, di: int)
    requires
        0 <= bi < board.spi_buses@.len(),
        0 <= di < board.spi_buses@[bi].devices@.len(),
    ensures
        board_labels(board).contains(board.spi_buses@[bi].label@),
        board_labels(board).contains(board.spi_buses@[bi].devices@[di].label@),
{
    let b = board.spi_buses@[bi];
    let il = board.i2c_buses@.map_values(|b: I2cBus| i2c_bus_labels(b));
    let sl = board.spi_buses@.map_values(|b: SpiBus| spi_bus_labels(b));
    let gl = board.gpios@.map_values(|g: Gpio| g.label@);
    assert(sl[bi][0] == b.label@);
    assert(sl[bi][1 + di] == b.devices@[di].label@);
    lemma_cat_contains(sl, bi, b.label@);
    lemma_cat_contains(sl, bi, b.devices@[di].label@);
    let k1 = cat(sl).index_of(b.label@);
    let k2 = cat(sl).index_of(b.devices@[di].label@);
    assert(board_labels(board)[gl.len() + cat(il).len() + k1] == b.label@);
    assert(board_labels(board)[gl.len() + cat(il).len() + k2] == b.devices@[di].label@);
}

proof fn lemma_endpoints_concat(board: &Board, a: Seq<(Seq<char>, Seq<char>)>, b: Seq<(Seq<char>, Seq<char>)>)
    requires
        endpoints_known(board, a),
        endpoints_known(board, b),
    ensures
        endpoints_known(board, a + b),
{
    assert forall|k: int| 0 <= k < (a + b).len() implies board_labels(board).contains(#[trigger] (a + b)[k].0) && board_labels(board).contains((a + b)[k].1) by {
        if k < a.len() {
            assert((a + b)[k] == a[k]);
            assert(board_labels(board).contains(a[k].0));
        } else {
            let j = k - a.len();
            assert((a + b)[k] == b[j]);
            assert(board_labels(board).contains(b[j].0));
        }
    }
}

/// Every label of the board, gathered in registration order.
fn label_list(board: &Board) -> (r: Vec<String>)
    ensures
        views(r@) == board_labels(board),
{
    let mut r: Vec<String> = Vec::new();
    let ghost gl = board.gpios@.map_values(|g: Gpio| g.label@);
    let ghost il = board.i2c_buses@.map_values(|b: I2cBus| i2c_bus_labels(b));
    let ghost sl = board.spi_buses@.map_values(|b: SpiBus| spi_bus_labels(b));
    let ghost ul = board.uarts@.map_values(|u: Uart| u.label@);
    for i in 0..board.gpios.len()
        invariant
            i <= board.gpios@.len(),
            gl == board.gpios@.map_values(|g: Gpio| g.label@),
            views(r@) == gl.take(i as int),
    {
        let l = board.gpios[i].label.clone();
        let ghost r0 = r@;
        r.push(l);
        proof {
            lemma_views_push(r0, l);
            assert(views(r@) =~= gl.take(i + 1));
        }
    }
    proof {
        assert(gl.take(gl.len() as int) =~= gl);
        assert(il.take(0) =~= Seq::<Seq<Seq<char>>>::empty());
    }
    for bi in 0..board.i2c_buses.len()
        invariant
            bi <= board.i2c_buses@.len(),
            il == board.i2c_buses@.map_values(|b: I2cBus| i2c_bus_labels(b)),
            views(r@) == gl + cat(il.take(bi as int)),
    {
        let b = &board.i2c_buses[bi];
        let ghost base = views(r@);
        r.push(b.label.clone());
        for di in 0..b.devices.len()
            invariant
                di <= b.devices@.len(),
                views(r@) == base + seq![b.label@] + b.devices@.take(di as int).map_values(|d: I2cDevice| d.label@),
        {
            let ghost r0 = r@;
            let l = b.devices[di].label.clone();
            r.push(l);
            proof {
                lemma_views_push(r0, l);
                lemma_take_map_push(b.devices@, |d: I2cDevice| d.label@, di as int);
                assert(views(r@) =~= base + seq![b.label@] + b.devices@.take(di + 1).map_values(|d: I2cDevice| d.label@));
            }
        }
        proof {
            assert(b.devices@.take(b.devices@.len() as int) =~= b.devices@);
            assert(il.take(bi + 1) =~= il.take(bi as int).push(i2c_bus_labels(*b)));
            lemma_cat_push(il.take(bi as int), i2c_bus_labels(*b));
            assert(views(r@) =~= gl + cat(il.take(bi + 1)));
        }
    }
    proof {
        assert(il.take(il.len() as int) =~= il);
    }
    for bi in 0..board.spi_buses.len()
        invariant
            bi <= board.spi_buses@.len(),
            il == board.i2c_buses@.map_values(|b: I2cBus| i2c_bus_labels(b)),
            sl == board.spi_buses@.map_values(|b: SpiBus| spi_bus_labels(b)),
            views(r@) == gl + cat(il) + cat(sl.take(bi as int)),
    {
        let b = &board.spi_buses[bi];
        let ghost base = views(r@);
        r.push(b.label.clone());
        for di in 0..b.devices.len()
            invariant
                di <= b.devices@.len(),
                views(r@) == base + seq![b.label@] + b.devices@.take(di as int).map_values(|d: SpiDevice| d.label@),
        {
            let ghost r0 = r@;
            let l = b.devices[di].label.clone();
            r.push(l);
            proof {
                lemma_views_push(r0, l);
                lemma_take_map_push(b.devices@, |d: SpiDevice| d.label@, di as int);
                assert(views(r@) =~= base + seq![b.label@] + b.devices@.take(di + 1).map_values(|d: SpiDevice| d.label@));
            }
        }
        proof {
            assert(b.devices@.take(b.devices@.len() as int) =~= b.devices@);
            assert(sl.take(bi + 1) =~= sl.take(bi as int).push(spi_bus_labels(*b)));
            lemma_cat_push(sl.take(bi as int), spi_bus_labels(*b));
            assert(views(r@) =~= gl + cat(il) + cat(sl.take(bi + 1)));
        }
    }
    proof {
        assert(sl.take(sl.len() as int) =~= sl);
    }
    let ghost base = views(r@);
    for i in 0..board.uarts.len()
        invariant
            i <= board.uarts@.len(),
            ul == board.uarts@.map_values(|u: Uart| u.label@),
            views(r@) == base + ul.take(i as int),
    {
        let ghost r0 = r@;
        let l = board.uarts[i].label.clone();
        r.push(l);
        proof {
            lemma_views_push(r0, l);
            assert(views(r@) =~= base + ul.take(i + 1));
        }
    }
    proof {
        assert(ul.take(ul.len() as int) =~= ul);
    }
    r
}

/// Whether a label occurs in a list.
fn contains_label(list: &Vec<String>, t: &str) -> (r: bool)
    ensures
        r == views(list@).contains(t@),
{
    for i in 0..list.len()
        invariant
            i <= list@.len(),
            forall|k: int| 0 <= k < i ==> views(list@)[k] != t@,
    {
        if str_eq(list[i].as_str(), t) {
            proof {
                assert(views(list@)[i as int] == t@);
            }
            return true;
        }
    }
    false
}

/// The edge and error of a `power_pin`.
fn power_link(board: &Board, dependent: &str, power_pin: Option<u32>, kind: &str) -> (r: (Vec<(String, String)>, Vec<String>))
    ensures
        edge_views(r.0@) == power_edges(board, dependent@, power_pin),
        views(r.1@) == power_errors(board, kind@, dependent@, power_pin),
        board_labels(board).contains(dependent@) ==> endpoints_known(board, edge_views(r.0@)),
{
    let mut edges: Vec<(String, String)> = Vec::new();
    let mut errors: Vec<String> = Vec::new();
    match power_pin {
        None => {},
        Some(pin) => {
            match board.gpio_by_pin(pin) {
                Some(gpio) => {
                    proof {
                        let i = choose|i: int| 0 <= i < board.gpios@.len() && board.gpios@[i] == *gpio && gpio.pin == pin && forall|k: int|
                            0 <= k < i ==> board.gpios@[k].pin != pin;
                        lemma_first_gpio(board.gpios@, pin, i);
                        lemma_gpio_known(board, i);
                    }
                    if gpio.is_output() {
                        edges.push((dependent.to_owned(), gpio.label.clone()));
                    } else {
                        let mut m = String::new();
                        push_str(&mut m, kind);
                        push_str(&mut m, " '");
                        push_str(&mut m, dependent);
                        push_str(&mut m, "' has power_pin ");
                        push_dec(&mut m, pin as u64);
                        push_str(&mut m, ", but GPIO '");
                        push_str(&mut m, gpio.label.as_str());
                        push_str(&mut m, "' on that pin is not configured as an output. A power pin must be a GPIO output.");
                        errors.push(m);
                    }
                },
                None => {
                    proof {
                        lemma_first_gpio_none(board.gpios@, pin);
                    }
                    let mut m = String::new();
                    push_str(&mut m, kind);
                    push_str(&mut m, " '");
                    push_str(&mut m, dependent);
                    push_str(&mut m, "' has power_pin ");
                    push_dec(&mut m, pin as u64);
                    push_str(&mut m, ", but no GPIO output is declared on that pin. Declare a `[[gpio]]` with mode \"output\" on pin ");
                    push_dec(&mut m, pin as u64);
                    push_str(&mut m, ".");
                    errors.push(m);
                },
            }
        },
    }
    proof {
        assert(edge_views(edges@) =~= power_edges(board, dependent@, power_pin));
        assert(views(errors@) =~= power_errors(board, kind@, dependent@, power_pin));
    }
    (edges, errors)
}

/// The edge and error of an explicit `depends_on`.
fn depends_link(board: &Board, known: &Vec<String>, dependent: &str, depends_on: &Option<String>, kind: &str) -> (r: (Vec<(String, String)>, Vec<String>))
    requires
        views(known@) == board_labels(board),
    ensures
        edge_views(r.0@) == depends_edges(board, dependent@, *depends_on),
        views(r.1@) == depends_errors(board, kind@, dependent@, *depends_on),
        board_labels(board).contains(dependent@) ==> endpoints_known(board, edge_views(r.0@)),
{
    let mut edges: Vec<(String, String)> = Vec::new();
    let mut errors: Vec<String> = Vec::new();
    match depends_on {
        None => {},
        Some(target) => {
            if contains_label(known, target.as_str()) {
                edges.push((dependent.to_owned(), target.clone()));
            } else {
                let mut m = String::new();
                push_str(&mut m, kind);
                push_str(&mut m, " '");
                push_str(&mut m, dependent);
                push_str(&mut m, "' depends_on '");
                push_str(&mut m, target.as_str());
                push_str(&mut m, "', which is not a declared peripheral label.");
                errors.push(m);
            }
        },
    }
    proof {
        assert(edge_views(edges@) =~= depends_edges(board, dependent@, *depends_on));
        assert(views(errors@) =~= depends_errors(board, kind@, dependent@, *depends_on));
    }
    (edges, errors)
}

/// Append one list of edges and errors to another.
fn extend_links(edges: &mut Vec<(String, String)>, errors: &mut Vec<String>, more: (Vec<(String, String)>, Vec<String>))
    ensures
        edge_views(final(edges)@) == edge_views(old(edges)@) + edge_views(more.0@),
        views(final(errors)@) == views(old(errors)@) + views(more.1@),
{
    let (me, mr) = more;
    let ghost e0 = edge_views(edges@);
    let ghost r0 = views(errors@);
    for i in 0..me.len()
        invariant
            i <= me@.len(),
            edge_views(edges@) == e0 + edge_views(me@).take(i as int),
    {
        let ghost q = edges@;
        let e = (me[i].0.clone(), me[i].1.clone());
        edges.push(e);
        proof {
            assert(edge_views(edges@) =~= edge_views(q).push((e.0@, e.1@)));
            assert(edge_views(edges@) =~= e0 + edge_views(me@).take(i + 1));
        }
    }
    for i in 0..mr.len()
        invariant
            i <= mr@.len(),
            edge_views(edges@) == e0 + edge_views(me@),
            views(errors@) == r0 + views(mr@).take(i as int),
    {
        let ghost q = errors@;
        let m = mr[i].clone();
        errors.push(m);
        proof {
            lemma_views_push(q, m);
            assert(views(errors@) =~= r0 + views(mr@).take(i + 1));
        }
    }
    proof {
        assert(edge_views(me@).take(me@.len() as int) =~= edge_views(me@));
        assert(views(mr@).take(mr@.len() as int) =~= views(mr@));
    }
}

/// The edges and errors of one I2C device.
fn i2c_device_links(board: &Board, known: &Vec<String>, b: &I2cBus, d: &I2cDevice) -> (r: (Vec<(String, String)>, Vec<String>))
    requires
        views(known@) == board_labels(board),
        board_labels(board).contains(b.label@),
        board_labels(board).contains(d.label@),
    ensures
        edge_views(r.0@) == i2c_device_edges(board, *b, *d),
        views(r.1@) == i2c_device_errors(board, *d),
        endpoints_known(board, edge_views(r.0@)),
{
    let mut edges: Vec<(String, String)> = Vec::new();
    let mut errors: Vec<String> = Vec::new();
    edges.push((d.label.clone(), b.label.clone()));
    let ghost e1 = edge_views(edges@);
    proof {
        assert(e1 =~= seq![(d.label@, b.label@)]);
    }
    let pl = power_link(board, d.label.as_str(), d.power_pin, "i2c device");
    let ghost pv = edge_views(pl.0@);
    extend_links(&mut edges, &mut errors, pl);
    let dl = depends_link(board, known, d.label.as_str(), &d.depends_on, "i2c device");
    let ghost dv = edge_views(dl.0@);
    let ghost e3 = edge_views(edges@);
    extend_links(&mut edges, &mut errors, dl);
    proof {
        lemma_endpoints_concat(board, e1, pv);
        lemma_endpoints_concat(board, e3, dv);
        assert(edge_views(edges@) =~= i2c_device_edges(board, *b, *d));
        assert(views(errors@) =~= i2c_device_errors(board, *d));
    }
    (edges, errors)
}

/// The edges and errors of one SPI device.
fn spi_device_links(board: &Board, known: &Vec<String>, b: &SpiBus, d: &SpiDevice) -> (r: (Vec<(String, String)>, Vec<String>))
    requires
        views(known@) == board_labels(board),
        board_labels(board).contains(b.label@),
        board_labels(board).contains(d.label@),
    ensures
        edge_views(r.0@) == spi_device_edges(board, *b, *d),
        views(r.1@) == spi_device_errors(board, *d),
        endpoints_known(board, edge_views(r.0@)),
{
    let mut edges: Vec<(String, String)> = Vec::new();
    let mut errors: Vec<String> = Vec::new();
    edges.push((d.label.clone(), b.label.clone()));
    match board.gpio_by_pin(d.cs_pin) {
        Some(gpio) => {
            proof {
                let i = choose|i: int| 0 <= i < board.gpios@.len() && board.gpios@[i] == *gpio && gpio.pin == d.cs_pin && forall|k: int|
                    0 <= k < i ==> board.gpios@[k].pin != d.cs_pin;
                lemma_first_gpio(board.gpios@, d.cs_pin, i);
                lemma_gpio_known(board, i);
                assert(board_labels(board).contains(gpio.label@));
            }
            edges.push((d.label.clone(), gpio.label.clone()));
        },
        None => {
            proof {
                lemma_first_gpio_none(board.gpios@, d.cs_pin);
            }
        },
    }
    let ghost e1 = edge_views(edges@);
    proof {
        assert(e1 =~= seq![(d.label@, b.label@)] + cs_edges(board, *d));
        assert forall|k: int| 0 <= k < e1.len() implies board_labels(board).contains(#[trigger] e1[k].0) && board_labels(board).contains(e1[k].1) by {}
    }
    let pl = power_link(board, d.label.as_str(), d.power_pin, "spi device");
    let ghost pv = edge_views(pl.0@);
    extend_links(&mut edges, &mut errors, pl);
    let dl = depends_link(board, known, d.label.as_str(), &d.depends_on, "spi device");
    let ghost dv = edge_views(dl.0@);
    let ghost e3 = edge_views(edges@);
    extend_links(&mut edges, &mut errors, dl);
    proof {
        lemma_endpoints_concat(board, e1, pv);
        lemma_endpoints_concat(board, e3, dv);
        assert(edge_views(edges@) =~= spi_device_edges(board, *b, *d));
        assert(views(errors@) =~= spi_device_errors(board, *d));
    }
    (edges, errors)
}

/// All edges and errors of the board's devices, in declaration order.
fn board_links(board: &Board, known: &Vec<String>) -> (r: (Vec<(String, String)>, Vec<String>))
    requires
        views(known@) == board_labels(board),
    ensures
        edge_views(r.0@) == board_edges(board),
        views(r.1@) == board_link_errors(board),
        endpoints_known(board, board_edges(board)),
{
    let mut edges: Vec<(String, String)> = Vec::new();
    let mut errors: Vec<String> = Vec::new();
    let ghost ie = board.i2c_buses@.map_values(|b: I2cBus| i2c_bus_edges(board, b));
    let ghost ir = board.i2c_buses@.map_values(|b: I2cBus| i2c_bus_errors(board, b));
    let ghost se = board.spi_buses@.map_values(|b: SpiBus| spi_bus_edges(board, b));
    let ghost sr = board.spi_buses@.map_values(|b: SpiBus| spi_bus_errors(board, b));
    proof {
        assert(edge_views(edges@) =~= cat(ie.take(0)));
        assert(views(errors@) =~= cat(ir.take(0)));
    }
    for bi in 0..board.i2c_buses.len()
        invariant
            bi <= board.i2c_buses@.len(),
            views(known@) == board_labels(board),
            ie == board.i2c_buses@.map_values(|b: I2cBus| i2c_bus_edges(board, b)),
            ir == board.i2c_buses@.map_values(|b: I2cBus| i2c_bus_errors(board, b)),
            edge_views(edges@) == cat(ie.take(bi as int)),
            views(errors@) == cat(ir.take(bi as int)),
            endpoints_known(board, edge_views(edges@)),
    {
        let b = &board.i2c_buses[bi];
        let ghost e_base = edge_views(edges@);
        let ghost r_base = views(errors@);
        let ghost de = b.devices@.map_values(|d: I2cDevice| i2c_device_edges(board, *b, d));
        let ghost dr = b.devices@.map_values(|d: I2cDevice| i2c_device_errors(board, d));
        proof {
            assert(cat(de.take(0)) =~= Seq::<(Seq<char>, Seq<char>)>::empty());
            assert(cat(dr.take(0)) =~= Seq::<Seq<char>>::empty());
            assert(edge_views(edges@) =~= e_base + cat(de.take(0)));
            assert(views(errors@) =~= r_base + cat(dr.take(0)));
        }
        for di in 0..b.devices.len()
            invariant
                di <= b.devices@.len(),
                bi < board.i2c_buses@.len(),
                *b == board.i2c_buses@[bi as int],
                views(known@) == board_labels(board),
                de == b.devices@.map_values(|d: I2cDevice| i2c_device_edges(board, *b, d)),
                dr == b.devices@.map_values(|d: I2cDevice| i2c_device_errors(board, d)),
                edge_views(edges@) == e_base + cat(de.take(di as int)),
                views(errors@) == r_base + cat(dr.take(di as int)),
                endpoints_known(board, edge_views(edges@)),
        {
            let d = &b.devices[di];
            let ghost e1 = edge_views(edges@);
            let ghost r1 = views(errors@);
            proof {
                lemma_i2c_device_known(board, bi as int, di as int);
            }
            let links = i2c_device_links(board, known, b, d);
            let ghost lv = edge_views(links.0@);
            extend_links(&mut edges, &mut errors, links);
            proof {
                lemma_endpoints_concat(board, e1, lv);
                assert(de.take(di + 1) =~= de.take(di as int).push(de[di as int]));
                assert(dr.take(di + 1) =~= dr.take(di as int).push(dr[di as int]));
                lemma_cat_push(de.take(di as int), de[di as int]);
                lemma_cat_push(dr.take(di as int), dr[di as int]);
            }
        }
        proof {
            assert(de.take(de.len() as int) =~= de);
            assert(dr.take(dr.len() as int) =~= dr);
            assert(ie.take(bi + 1) =~= ie.take(bi as int).push(ie[bi as int]));
            assert(ir.take(bi + 1) =~= ir.take(bi as int).push(ir[bi as int]));
            lemma_cat_push(ie.take(bi as int), ie[bi as int]);
            lemma_cat_push(ir.take(bi as int), ir[bi as int]);
        }
    }
    proof {
        assert(ie.take(ie.len() as int) =~= ie);
        assert(ir.take(ir.len() as int) =~= ir);
        assert(cat(se.take(0)) =~= Seq::<(Seq<char>, Seq<char>)>::empty());
        assert(cat(sr.take(0)) =~= Seq::<Seq<char>>::empty());
        assert(edge_views(edges@) =~= cat(ie) + cat(se.take(0)));
        assert(views(errors@) =~= cat(ir) + cat(sr.take(0)));
    }
    for bi in 0..board.spi_buses.len()
        invariant
            bi <= board.spi_buses@.len(),
            views(known@) == board_labels(board),
            se == board.spi_buses@.map_values(|b: SpiBus| spi_bus_edges(board, b)),
            sr == board.spi_buses@.map_values(|b: SpiBus| spi_bus_errors(board, b)),
            edge_views(edges@) == cat(ie) + cat(se.take(bi as int)),
            views(errors@) == cat(ir) + cat(sr.take(bi as int)),
            endpoints_known(board, edge_views(edges@)),
    {
        let b = &board.spi_buses[bi];
        let ghost e_base = edge_views(edges@);
        let ghost r_base = views(errors@);
        let ghost de = b.devices@.map_values(|d: SpiDevice| spi_device_edges(board, *b, d));
        let ghost dr = b.devices@.map_values(|d: SpiDevice| spi_device_errors(board, d));
        proof {
            assert(cat(de.take(0)) =~= Seq::<(Seq<char>, Seq<char>)>::empty());
            assert(cat(dr.take(0)) =~= Seq::<Seq<char>>::empty());
            assert(edge_views(edges@) =~= e_base + cat(de.take(0)));
            assert(views(errors@) =~= r_base + cat(dr.take(0)));
        }
        for di in 0..b.devices.len()
            invariant
                di <= b.devices@.len(),
                bi < board.spi_buses@.len(),
                *b == board.spi_buses@[bi as int],
                views(known@) == board_labels(board),
                de == b.devices@.map_values(|d: SpiDevice| spi_device_edges(board, *b, d)),
                dr == b.devices@.map_values(|d: SpiDevice| spi_device_errors(board, d)),
                edge_views(edges@) == e_base + cat(de.take(di as int)),
                views(errors@) == r_base + cat(dr.take(di as int)),
                endpoints_known(board, edge_views(edges@)),
        {
            let d = &b.devices[di];
            let ghost e1 = edge_views(edges@);
            let ghost r1 = views(errors@);
            proof {
                lemma_spi_device_known(board, bi as int, di as int);
            }
            let links = spi_device_links(board, known, b, d);
            let ghost lv = edge_views(links.0@);
            extend_links(&mut edges, &mut errors, links);
            proof {
                lemma_endpoints_concat(board, e1, lv);
                assert(de.take(di + 1) =~= de.take(di as int).push(de[di as int]));
                assert(dr.take(di + 1) =~= dr.take(di as int).push(dr[di as int]));
                lemma_cat_push(de.take(di as int), de[di as int]);
                lemma_cat_push(dr.take(di as int), dr[di as int]);
            }
        }
        proof {
            assert(de.take(de.len() as int) =~= de);
            assert(dr.take(dr.len() as int) =~= dr);
            assert(se.take(bi + 1) =~= se.take(bi as int).push(se[bi as int]));
            assert(sr.take(bi + 1) =~= sr.take(bi as int).push(sr[bi as int]));
            lemma_cat_push(se.take(bi as int), se[bi as int]);
            lemma_cat_push(sr.take(bi as int), sr[bi as int]);
        }
    }
    proof {
        assert(se.take(se.len() as int) =~= se);
        assert(sr.take(sr.len() as int) =~= sr);
    }
    (edges, errors)
}

} // verus!

verus! {

/// No cycle follows the given edges.
pub open spec fn edges_acyclic(edges: Seq<(Seq<char>, Seq<char>)>) -> bool {
    forall|p: Seq<Seq<char>>| !edge_cycle(edges, p)
}

/// Build the dependency graph for `board`.
///
/// Adds every peripheral as a node, then edges for:
/// - each I2C/SPI device to its parent bus,
/// - each SPI device `cs_pin` to a GPIO declared on that pin (if any),
/// - each device `power_pin` to the GPIO output declared on that pin,
/// - each device `depends_on` to the named peripheral.
///
/// Returns every validation error found: unknown `depends_on` targets,
/// `power_pin`s that do not name a GPIO output, and (only when there are none
/// of those) a dependency cycle.
pub fn build(board: &Board) -> (r: Result<DepGraph, Vec<ValidationError>>)
    ensures
        r is Ok == (board_link_errors(board).len() == 0 && edges_acyclic(board_edges(board))),
        r matches Ok(g) ==> {
            &&& g.wf()
            &&& g.node_seq() == registered(board_labels(board))
            &&& forall|a: Seq<char>, b: Seq<char>| g.has_edge(a, b) == board_edges(board).contains((a, b))
        },
        r matches Err(es) ==> (board_link_errors(board).len() > 0 && messages(es@) == board_link_errors(board)) || (
        board_link_errors(board).len() == 0 && es@.len() == 1 && (board_cycle(board) matches Some(p) && edge_cycle(
            board_edges(board),
            p,
        ) && es@[0].message@ == cycle_message(p))),
{
    let mut g = DepGraph::new();
    let labels = label_list(board);
    let ghost lv = views(labels@);
    proof {
        assert(registered(lv.take(0)) =~= Seq::<Seq<char>>::empty());
    }
    for i in 0..labels.len()
        invariant
            i <= labels@.len(),
            lv == views(labels@),
            lv == board_labels(board),
            g.wf(),
            g.node_seq() == registered(lv.take(i as int)),
            forall|a: Seq<char>, b: Seq<char>| !g.has_edge(a, b),
    {
        g.add_node(labels[i].as_str());
        proof {
            assert(lv.take(i + 1).drop_last() =~= lv.take(i as int));
            assert(lv.take(i + 1).last() == labels@[i as int]@);
        }
    }
    proof {
        assert(lv.take(lv.len() as int) =~= lv);
    }
    let (edges, link_errors) = board_links(board, &labels);
    let ghost ev = edge_views(edges@);
    proof {
        assert(ev.take(0) =~= Seq::<(Seq<char>, Seq<char>)>::empty());
    }
    for k in 0..edges.len()
        invariant
            k <= edges@.len(),
            ev == edge_views(edges@),
            ev == board_edges(board),
            endpoints_known(board, ev),
            g.wf(),
            g.node_seq() == registered(board_labels(board)),
            forall|a: Seq<char>, b: Seq<char>| g.has_edge(a, b) == ev.take(k as int).contains((a, b)),
    {
        proof {
            assert(board_labels(board).contains(ev[k as int].0));
            lemma_registered_contains(board_labels(board), ev[k as int].0);
            lemma_registered_contains(board_labels(board), ev[k as int].1);
        }
        g.add_edge(edges[k].0.as_str(), edges[k].1.as_str());
        proof {
            assert(ev.take(k + 1) =~= ev.take(k as int).push(ev[k as int]));
            assert forall|a: Seq<char>, b: Seq<char>| g.has_edge(a, b) == ev.take(k + 1).contains((a, b)) by {
                crate::text::lemma_push_contains(ev.take(k as int), ev[k as int], (a, b));
            }
        }
    }
    proof {
        assert(ev.take(ev.len() as int) =~= ev);
        // The graph's cycles are exactly the cycles along the board's edges.
        assert forall|p: Seq<Seq<char>>| super::is_cycle_in(&g, p) == edge_cycle(ev, p) by {
            if super::is_cycle_in(&g, p) {
                assert forall|q: int| 0 <= q < p.len() - 1 implies #[trigger] ev.contains((p[q], p[q + 1])) by {
                    assert(g.has_edge(p[q], p[q + 1]));
                }
            }
            if edge_cycle(ev, p) {
                assert forall|q: int| 0 <= q < p.len() - 1 implies #[trigger] g.has_edge(p[q], p[q + 1]) by {
                    assert(ev.contains((p[q], p[q + 1])));
                }
            }
        }
    }
    if link_errors.len() > 0 {
        let mut errors: Vec<ValidationError> = Vec::new();
        for k in 0..link_errors.len()
            invariant
                k <= link_errors@.len(),
                messages(errors@) == views(link_errors@).take(k as int),
        {
            let ghost q = errors@;
            let e = ValidationError::new(link_errors[k].as_str());
            let ghost ec = e;
            errors.push(e);
            proof {
                crate::error::lemma_messages_push(q, ec);
                assert(messages(errors@) =~= views(link_errors@).take(k + 1));
            }
        }
        proof {
            assert(views(link_errors@).take(link_errors@.len() as int) =~= views(link_errors@));
        }
        return Err(errors);
    }
    match g.detect_cycle() {
        Ok(()) => Ok(g),
        Err(path) => {
            let mut m = String::new();
            push_str(&mut m, "Circular dependency detected in initialization order\n  ");
            let joined = join_all(&path, " -> ");
            push_str(&mut m, joined.as_str());
            push_str(
                &mut m,
                "\n\n  These peripherals form a cycle and cannot be initialized in any valid order.\n  Review the `depends_on` fields in your config.",
            );
            let mut errors: Vec<ValidationError> = Vec::new();
            errors.push(ValidationError::from_string(m));
            proof {
                assert(path@.map_values(|p: String| p@) =~= views(path@));
                assert(edge_cycle(ev, views(path@)));
                assert(errors@[0].message@ =~= cycle_message(views(path@)));
                assert(g.node_set() =~= board_labels(board).to_set()) by {
                    assert forall|x: Seq<char>| g.node_set().contains(x) == board_labels(board).to_set().contains(x) by {
                        lemma_registered_contains(board_labels(board), x);
                    }
                }
                assert(g.edge_set() =~= ev.to_set());
                assert(g.dfs_cycle() == board_cycle(board));
            }
            Err(errors)
        },
    }
}

/// `k` is the first GPIO declared on `pin`.
pub open spec fn first_on_pin(gs: Seq<Gpio>, pin: u32, k: int) -> bool {
    &&& 0 <= k < gs.len()
    &&& gs[k].pin == pin
    &&& forall|k2: int| 0 <= k2 < k ==> gs[k2].pin != pin
}

/// An edge of one SPI device is an edge of the board.
proof fn lemma_spi_edge_in_board(board: &Board, bi: int, di: int, e: (Seq<char>, Seq<char>))
    requires
        0 <= bi < board.spi_buses@.len(),
        0 <= di < board.spi_buses@[bi].devices@.len(),
        spi_device_edges(board, board.spi_buses@[bi], board.spi_buses@[bi].devices@[di]).contains(e),
    ensures
        board_edges(board).contains(e),
{
    let b = board.spi_buses@[bi];
    let per = b.devices@.map_values(|d: SpiDevice| spi_device_edges(board, b, d));
    lemma_cat_contains(per, di, e);
    let buses = board.spi_buses@.map_values(|x: SpiBus| spi_bus_edges(board, x));
    lemma_cat_contains(buses, bi, e);
    let left = cat(board.i2c_buses@.map_values(|x: I2cBus| i2c_bus_edges(board, x)));
    let k = cat(buses).index_of(e);
    assert(board_edges(board)[left.len() + k] == e);
}

/// An edge of one I2C device is an edge of the board.
proof fn lemma_i2c_edge_in_board(board: &Board, bi: int, di: int, e: (Seq<char>, Seq<char>))
    requires
        0 <= bi < board.i2c_buses@.len(),
        0 <= di < board.i2c_buses@[bi].devices@.len(),
        i2c_device_edges(board, board.i2c_buses@[bi], board.i2c_buses@[bi].devices@[di]).contains(e),
    ensures
        board_edges(board).contains(e),
{
    let b = board.i2c_buses@[bi];
    let per = b.devices@.map_values(|d: I2cDevice| i2c_device_edges(board, b, d));
    lemma_cat_contains(per, di, e);
    let buses = board.i2c_buses@.map_values(|x: I2cBus| i2c_bus_edges(board, x));
    lemma_cat_contains(buses, bi, e);
    let k = cat(buses).index_of(e);
    assert(board_edges(board)[k] == e);
}

/// The dependencies a graph built from the board gives an SPI device: it
/// depends on its bus, on the first GPIO declared on its chip-select pin, on
/// the first GPIO declared on its power pin when that GPIO is an output, and
/// on the peripheral its `depends_on` names when there is one.
pub proof fn lemma_spi_device_links(board: &Board, g: &DepGraph, bi: int, di: int, k: int)
    requires
        forall|a: Seq<char>, b: Seq<char>| g.has_edge(a, b) == board_edges(board).contains((a, b)),
        0 <= bi < board.spi_buses@.len(),
        0 <= di < board.spi_buses@[bi].devices@.len(),
    ensures
        g.has_edge(board.spi_buses@[bi].devices@[di].label@, board.spi_buses@[bi].label@),
        first_on_pin(board.gpios@, board.spi_buses@[bi].devices@[di].cs_pin, k) ==> g.has_edge(
            board.spi_buses@[bi].devices@[di].label@,
            board.gpios@[k].label@,
        ),
        board.spi_buses@[bi].devices@[di].power_pin matches Some(p) && first_on_pin(board.gpios@, p, k)
            && board.gpios@[k].mode == GpioMode::Output ==> g.has_edge(
            board.spi_buses@[bi].devices@[di].label@,
            board.gpios@[k].label@,
        ),
        board.spi_buses@[bi].devices@[di].depends_on matches Some(t) ==> (board_labels(board).contains(t@)
            ==> g.has_edge(board.spi_buses@[bi].devices@[di].label@, t@)),
{
    let b = board.spi_buses@[bi];
    let d = b.devices@[di];
    let es = spi_device_edges(board, b, d);
    let cs = cs_edges(board, d);
    let pw = power_edges(board, d.label@, d.power_pin);
    let dp = depends_edges(board, d.label@, d.depends_on);
    assert(es == seq![(d.label@, b.label@)] + cs + pw + dp);
    assert(es[0] == (d.label@, b.label@));
    lemma_spi_edge_in_board(board, bi, di, (d.label@, b.label@));
    if first_on_pin(board.gpios@, d.cs_pin, k) {
        lemma_first_gpio(board.gpios@, d.cs_pin, k);
        assert(es[1] == (d.label@, board.gpios@[k].label@));
        lemma_spi_edge_in_board(board, bi, di, (d.label@, board.gpios@[k].label@));
    }
    if d.power_pin matches Some(p) && first_on_pin(board.gpios@, p, k) && board.gpios@[k].mode
        == GpioMode::Output {
        let p = d.power_pin->Some_0;
        lemma_first_gpio(board.gpios@, p, k);
        assert(es[1 + cs.len() as int] == (d.label@, board.gpios@[k].label@));
        lemma_spi_edge_in_board(board, bi, di, (d.label@, board.gpios@[k].label@));
    }
    if d.depends_on matches Some(t) && board_labels(board).contains(t@) {
        let t = d.depends_on->Some_0;
        assert(es[1 + cs.len() + pw.len() as int] == (d.label@, t@));
        lemma_spi_edge_in_board(board, bi, di, (d.label@, t@));
    }
}

/// The dependencies a graph built from the board gives an I2C device: it
/// depends on its bus, on the first GPIO declared on its power pin when that
/// GPIO is an output, and on the peripheral its `depends_on` names when there
/// is one.
pub proof fn lemma_i2c_device_links(board: &Board, g: &DepGraph, bi: int, di: int, k: int)
    requires
        forall|a: Seq<char>, b: Seq<char>| g.has_edge(a, b) == board_edges(board).contains((a, b)),
        0 <= bi < board.i2c_buses@.len(),
        0 <= di < board.i2c_buses@[bi].devices@.len(),
    ensures
        g.has_edge(board.i2c_buses@[bi].devices@[di].label@, board.i2c_buses@[bi].label@),
        board.i2c_buses@[bi].devices@[di].power_pin matches Some(p) && first_on_pin(board.gpios@, p, k)
            && board.gpios@[k].mode == GpioMode::Output ==> g.has_edge(
            board.i2c_buses@[bi].devices@[di].label@,
            board.gpios@[k].label@,
        ),
        board.i2c_buses@[bi].devices@[di].depends_on matches Some(t) ==> (board_labels(board).contains(t@)
            ==> g.has_edge(board.i2c_buses@[bi].devices@[di].label@, t@)),
{
    let b = board.i2c_buses@[bi];
    let d = b.devices@[di];
    let es = i2c_device_edges(board, b, d);
    let pw = power_edges(board, d.label@, d.power_pin);
    let dp = depends_edges(board, d.label@, d.depends_on);
    assert(es == seq![(d.label@, b.label@)] + pw + dp);
    assert(es[0] == (d.label@, b.label@));
    lemma_i2c_edge_in_board(board, bi, di, (d.label@, b.label@));
    if d.power_pin matches Some(p) && first_on_pin(board.gpios@, p, k) && board.gpios@[k].mode
        == GpioMode::Output {
        let p = d.power_pin->Some_0;
        lemma_first_gpio(board.gpios@, p, k);
        assert(es[1] == (d.label@, board.gpios@[k].label@));
        lemma_i2c_edge_in_board(board, bi, di, (d.label@, board.gpios@[k].label@));
    }
    if d.depends_on matches Some(t) && board_labels(board).contains(t@) {
        let t = d.depends_on->Some_0;
        assert(es[1 + pw.len() as int] == (d.label@, t@));
        lemma_i2c_edge_in_board(board, bi, di, (d.label@, t@));
    }
}

/// `b` is the label of the first GPIO declared on `pin`.
pub open spec fn gpio_on_pin(board: &Board, pin: u32, b: Seq<char>) -> bool {
    exists|k: int| first_on_pin(board.gpios@, pin, k) && board.gpios@[k].label@ == b
}

/// `b` is the label of the first GPIO declared on the power pin `pp`, and
/// that GPIO is an output.
pub open spec fn powered_by(board: &Board, pp: Option<u32>, b: Seq<char>) -> bool {
    pp matches Some(p) && exists|k: int|
        first_on_pin(board.gpios@, p, k) && board.gpios@[k].mode == GpioMode::Output && board.gpios@[k].label@ == b
}

/// `b` is the peripheral label that `dep` names.
pub open spec fn named_by(board: &Board, dep: Option<String>, b: Seq<char>) -> bool {
    dep matches Some(t) && t@ == b && board_labels(board).contains(b)
}

/// The edge from `a` to `b` has a reason: `a` is a device, and `b` is its
/// bus, the GPIO on its chip-select pin (SPI), the output on its power pin,
/// or the peripheral its `depends_on` names.
pub open spec fn justified_edge(board: &Board, a: Seq<char>, b: Seq<char>) -> bool {
    ||| exists|bi: int, di: int|
        0 <= bi < board.i2c_buses@.len() && 0 <= di < board.i2c_buses@[bi].devices@.len()
            && #[trigger] board.i2c_buses@[bi].devices@[di].label@ == a && {
            let d = board.i2c_buses@[bi].devices@[di];
            ||| b == board.i2c_buses@[bi].label@
            ||| powered_by(board, d.power_pin, b)
            ||| named_by(board, d.depends_on, b)
        }
    ||| exists|bi: int, di: int|
        0 <= bi < board.spi_buses@.len() && 0 <= di < board.spi_buses@[bi].devices@.len()
            && #[trigger] board.spi_buses@[bi].devices@[di].label@ == a && {
            let d = board.spi_buses@[bi].devices@[di];
            ||| b == board.spi_buses@[bi].label@
            ||| gpio_on_pin(board, d.cs_pin, b)
            ||| powered_by(board, d.power_pin, b)
            ||| named_by(board, d.depends_on, b)
        }
}

/// An element of a concatenation is an element of one of its pieces.
proof fn lemma_cat_member<A>(s: Seq<Seq<A>>, x: A)
    requires
        cat(s).contains(x),
    ensures
        exists|i: int| 0 <= i < s.len() && (#[trigger] s[i]).contains(x),
    decreases s.len(),
{
    let t = choose|t: int| 0 <= t < cat(s).len() && cat(s)[t] == x;
    let n = s.len() - 1;
    let pre = cat(s.drop_last());
    if t < pre.len() {
        assert(pre[t] == x);
        lemma_cat_member(s.drop_last(), x);
        let i = choose|i: int| 0 <= i < s.drop_last().len() && (#[trigger] s.drop_last()[i]).contains(x);
        assert(s[i] == s.drop_last()[i]);
    } else {
        assert(s[n][t - pre.len()] == x);
        assert(s[n].contains(x));
    }
}

/// The first GPIO declared on a pin is found at a first index.
proof fn lemma_first_gpio_first(gs: Seq<Gpio>, pin: u32)
    requires
        first_gpio(gs, pin) is Some,
    ensures
        exists|k: int| first_on_pin(gs, pin, k) && gs[k] == first_gpio(gs, pin)->0,
    decreases gs.len(),
{
    if gs[0].pin == pin {
        assert(first_on_pin(gs, pin, 0));
    } else {
        lemma_first_gpio_first(gs.drop_first(), pin);
        let k = choose|k: int| first_on_pin(gs.drop_first(), pin, k) && gs.drop_first()[k] == first_gpio(gs, pin)->0;
        assert forall|k2: int| 0 <= k2 < k + 1 implies gs[k2].pin != pin by {
            if k2 > 0 {
                assert(gs[k2] == gs.drop_first()[k2 - 1]);
            }
        }
        assert(first_on_pin(gs, pin, k + 1));
    }
}

proof fn lemma_power_edge_justified(board: &Board, dl: Seq<char>, pp: Option<u32>, e: (Seq<char>, Seq<char>))
    requires
        power_edges(board, dl, pp).contains(e),
    ensures
        e.0 == dl,
        powered_by(board, pp, e.1),
{
    let p = pp->Some_0;
    lemma_first_gpio_first(board.gpios@, p);
    let k = choose|k: int| first_on_pin(board.gpios@, p, k) && board.gpios@[k] == first_gpio(board.gpios@, p)->0;
    assert(power_edges(board, dl, pp)[0] == e);
}

/// Every edge of the board's dependency graph has a reason: it leads from a
/// device to its bus, to the GPIO on its chip-select pin, to the output on
/// its power pin, or to the peripheral its `depends_on` names.
pub proof fn lemma_board_edges_justified(board: &Board, a: Seq<char>, b: Seq<char>)
    requires
        board_edges(board).contains((a, b)),
    ensures
        justified_edge(board, a, b),
{
    let e = (a, b);
    let ib = board.i2c_buses@.map_values(|x: I2cBus| i2c_bus_edges(board, x));
    let sb = board.spi_buses@.map_values(|x: SpiBus| spi_bus_edges(board, x));
    let t = choose|t: int| 0 <= t < board_edges(board).len() && board_edges(board)[t] == e;
    if t < cat(ib).len() {
        assert(cat(ib)[t] == e);
        lemma_cat_member(ib, e);
        let bi = choose|bi: int| 0 <= bi < ib.len() && (#[trigger] ib[bi]).contains(e);
        let bus = board.i2c_buses@[bi];
        let per = bus.devices@.map_values(|d: I2cDevice| i2c_device_edges(board, bus, d));
        lemma_cat_member(per, e);
        let di = choose|di: int| 0 <= di < per.len() && (#[trigger] per[di]).contains(e);
        let d = bus.devices@[di];
        let es = i2c_device_edges(board, bus, d);
        let pw = power_edges(board, d.label@, d.power_pin);
        let dp = depends_edges(board, d.label@, d.depends_on);
        assert(es == seq![(d.label@, bus.label@)] + pw + dp);
        let u = choose|u: int| 0 <= u < es.len() && es[u] == e;
        if u == 0 {
        } else if u < 1 + pw.len() {
            assert(pw[u - 1] == e);
            lemma_power_edge_justified(board, d.label@, d.power_pin, e);
        } else {
            assert(dp[u - 1 - pw.len()] == e);
            assert(dp[0] == e);
        }
        assert(board.i2c_buses@[bi].devices@[di].label@ == a);
    } else {
        assert(cat(sb)[t - cat(ib).len()] == e);
        lemma_cat_member(sb, e);
        let bi = choose|bi: int| 0 <= bi < sb.len() && (#[trigger] sb[bi]).contains(e);
        let bus = board.spi_buses@[bi];
        let per = bus.devices@.map_values(|d: SpiDevice| spi_device_edges(board, bus, d));
        lemma_cat_member(per, e);
        let di = choose|di: int| 0 <= di < per.len() && (#[trigger] per[di]).contains(e);
        let d = bus.devices@[di];
        let es = spi_device_edges(board, bus, d);
        let cs = cs_edges(board, d);
        let pw = power_edges(board, d.label@, d.power_pin);
        let dp = depends_edges(board, d.label@, d.depends_on);
        assert(es == seq![(d.label@, bus.label@)] + cs + pw + dp);
        let u = choose|u: int| 0 <= u < es.len() && es[u] == e;
        if u == 0 {
        } else if u < 1 + cs.len() {
            assert(cs[u - 1] == e);
            assert(cs[0] == e);
            lemma_first_gpio_first(board.gpios@, d.cs_pin);
        } else if u < 1 + cs.len() + pw.len() {
            assert(pw[u - 1 - cs.len()] == e);
            lemma_power_edge_justified(board, d.label@, d.power_pin, e);
        } else {
            assert(dp[u - 1 - cs.len() - pw.len()] == e);
            assert(dp[0] == e);
        }
        assert(board.spi_buses@[bi].devices@[di].label@ == a);
    }
}

} // verus!
