//! The detailed `analysis.txt` report.

use vstd::prelude::*;
use crate::graph::topo::layer_views;
use crate::graph::DepGraph;
use crate::graph::sort::{sorted_of, views};
use crate::model::{Board, Gpio, I2cBus, I2cDevice, SpiBus, SpiDevice, Uart};
use crate::text::{counted, dec, join, join_all, owned, push_char, push_counted, push_dec, push_str, chars_of, str_eq};
use super::bus_utilization::{has_estimate, percent, utilization_percent};
use super::summary::{render as render_summary, summary_text};

verus! {

/// The system clock's type.
#[verifier::external_type_specification]
#[verifier::external_body]
pub struct ExSystemTime(std::time::SystemTime);

/// The current time, from `std::time::SystemTime::now`. Nothing is stated of
/// it: it is whatever the machine's clock reads.
#[verifier::external_body]
fn clock_now() -> (r: std::time::SystemTime) {
    std::time::SystemTime::now()
}

/// The time elapsed from the Unix epoch to `t`, from
/// `SystemTime::duration_since(UNIX_EPOCH)`; `None` for a time before the
/// epoch (the error that call returns). Nothing is stated of the duration.
#[verifier::external_body]
fn since_epoch(t: &std::time::SystemTime) -> (r: Option<std::time::Duration>) {
    t.duration_since(std::time::UNIX_EPOCH).ok()
}

/// The whole seconds of a duration, from `Duration::as_secs`. Nothing is
/// stated of the value, as nothing is stated of the durations it reads.
#[verifier::external_body]
fn whole_seconds(d: &std::time::Duration) -> (r: u64) {
    d.as_secs()
}

/// The seconds since the Unix epoch, by the system clock; a clock set before
/// the epoch reads as 0.
fn unix_seconds() -> (r: i64) {
    let now = clock_now();
    match since_epoch(&now) {
        Some(d) => whole_seconds(&d) as i64,
        None => 0,
    }
}

/// Rust's truncating division of `a` by a positive `b`.
pub open spec fn tdiv(a: int, b: int) -> int {
    if a >= 0 {
        a / b
    } else {
        -((-a) / b)
    }
}

/// The `(year, month, day)` civil date of a count of days since the Unix
/// epoch (Howard Hinnant's `civil_from_days`, with the era taken by
/// Euclidean division of `z` or `z - 146096`).
pub open spec fn civil_from_days(days: int) -> (int, int, int) {
    let z = days + 719_468;
    let era = (if z >= 0 {
        z
    } else {
        z - 146_096
    }) / 146_097;
    let doe = z - era * 146_097;
    let yoe = tdiv(doe - tdiv(doe, 1460) + tdiv(doe, 36_524) - tdiv(doe, 146_096), 365);
    let y = yoe + era * 400;
    let doy = doe - (365 * yoe + tdiv(yoe, 4) - tdiv(yoe, 100));
    let mp = tdiv(5 * doy + 2, 153);
    let d = doy - tdiv(153 * mp + 2, 5) + 1;
    let m = if mp < 10 {
        mp + 3
    } else {
        mp - 9
    };
    (if m <= 2 {
        y + 1
    } else {
        y
    }, m, d)
}

/// `k` zeros.
pub open spec fn zeros(k: int) -> Seq<char>
    decreases k,
{
    if k <= 0 {
        Seq::empty()
    } else {
        zeros(k - 1).push('0')
    }
}

/// `n` zero-padded to `w` characters, the sign counted (`{:0w}`).
pub open spec fn padded(n: int, w: int) -> Seq<char> {
    if n < 0 {
        "-"@ + zeros(w - 1 - dec((-n) as nat).len()) + dec((-n) as nat)
    } else {
        zeros(w - dec(n as nat).len()) + dec(n as nat)
    }
}

/// The RFC 3339 UTC timestamp of a Unix time.
pub open spec fn timestamp(secs: int) -> Seq<char> {
    let days = secs / 86_400;
    let tod = secs % 86_400;
    let (y, mo, d) = civil_from_days(days);
    padded(y, 4) + "-"@ + padded(mo, 2) + "-"@ + padded(d, 2) + "T"@ + padded(tod / 3600, 2) + ":"@ + padded(
        (tod % 3600) / 60,
        2,
    ) + ":"@ + padded(tod % 60, 2) + "Z"@
}

/// Rust's truncating division of `a` by `b`.
fn tdiv_exec(a: i64, b: i64) -> (r: i64)
    requires
        0 < b,
        a > i64::MIN,
    ensures
        r == tdiv(a as int, b as int),
{
    if a >= 0 {
        ((a as u64) / (b as u64)) as i64
    } else {
        -(((-a) as u64 / (b as u64)) as i64)
    }
}

/// `n` divided by `d` rounded down, for the divisors of the calendar.
fn floor_div(n: i64, d: i64) -> (r: i64)
    requires
        d == 86_400 || d == 146_097,
        n > i64::MIN,
    ensures
        r == n as int / d as int,
{
    if n >= 0 {
        ((n as u64) / (d as u64)) as i64
    } else {
        let m: u64 = (-(n + 1)) as u64;
        -(((m / (d as u64)) as i64)) - 1
    }
}

/// The civil date of a day count (see [`civil_from_days`]).
fn civil(days: i64) -> (r: (i64, i64, i64))
    requires
        -0x1_0000_0000_0000 <= days <= 0x1_0000_0000_0000,
    ensures
        (r.0 as int, r.1 as int, r.2 as int) == civil_from_days(days as int),
{
    let z = days + 719_468;
    let era = floor_div(if z >= 0 {
        z
    } else {
        z - 146_096
    }, 146_097);
    let doe = z - era * 146_097;
    let yoe = tdiv_exec(doe - tdiv_exec(doe, 1460) + tdiv_exec(doe, 36_524) - tdiv_exec(doe, 146_096), 365);
    let y = yoe + era * 400;
    let doy = doe - (365 * yoe + tdiv_exec(yoe, 4) - tdiv_exec(yoe, 100));
    let mp = tdiv_exec(5 * doy + 2, 153);
    let d = doy - tdiv_exec(153 * mp + 2, 5) + 1;
    let m = if mp < 10 {
        mp + 3
    } else {
        mp - 9
    };
    (if m <= 2 {
        y + 1
    } else {
        y
    }, m, d)
}

/// Append `n` zero-padded to `w` characters (see [`padded`]).
fn push_padded(s: &mut String, n: i64, w: usize)
    requires
        n > i64::MIN,
    ensures
        final(s)@ == old(s)@ + padded(n as int, w as int),
{
    let mut digits = String::new();
    let neg = n < 0;
    let mag: u64 = if neg {
        (-n) as u64
    } else {
        n as u64
    };
    push_dec(&mut digits, mag);
    let len = chars_of(digits.as_str()).len();
    if neg {
        push_str(s, "-");
    }
    let target: usize = if neg {
        if w >= 1 {
            w - 1
        } else {
            0
        }
    } else {
        w
    };
    let ghost start = s@;
    let mut k: usize = len;
    while k < target
        invariant
            len <= k <= target || (k == len && target < len),
            s@ == start + zeros(k - len),
        decreases target - k,
    {
        push_char(s, '0');
        k = k + 1;
        assert(s@ =~= start + zeros(k - len));
    }
    push_str(s, digits.as_str());
    assert(final(s)@ =~= old(s)@ + padded(n as int, w as int));
}

/// The day count and the second within the day of a Unix time.
fn split_time(secs: i64) -> (r: (i64, i64))
    ensures
        r.0 == secs as int / 86_400,
        r.1 == secs as int % 86_400,
        -0x1_0000_0000_0000 <= r.0 <= 0x1_0000_0000_0000,
{
    let days = if secs > i64::MIN {
        floor_div(secs, 86_400)
    } else {
        floor_div(secs + 86_400, 86_400) - 1
    };
    let tod = (secs as i128 - (days as i128) * 86_400) as i64;
    (days, tod)
}

/// The RFC 3339 UTC timestamp of a Unix time (see [`timestamp`]).
pub fn format_timestamp(secs: i64) -> (r: String)
    ensures
        r@ == timestamp(secs as int),
{
    let (days, tod) = split_time(secs);
    let (y, mo, d) = civil(days);
    let mut s = String::new();
    push_padded(&mut s, y, 4);
    push_str(&mut s, "-");
    push_padded(&mut s, mo, 2);
    push_str(&mut s, "-");
    push_padded(&mut s, d, 2);
    push_str(&mut s, "T");
    push_padded(&mut s, tod / 3600, 2);
    push_str(&mut s, ":");
    push_padded(&mut s, (tod % 3600) / 60, 2);
    push_str(&mut s, ":");
    push_padded(&mut s, tod % 60, 2);
    push_str(&mut s, "Z");
    assert(s@ =~= timestamp(secs as int));
    s
}

/// The value registered last for `key`.
pub open spec fn last_value(entries: Seq<(Seq<char>, Seq<char>)>, key: Seq<char>) -> Option<Seq<char>>
    decreases entries.len(),
{
    if entries.len() == 0 {
        None
    } else if entries.last().0 == key {
        Some(entries.last().1)
    } else {
        last_value(entries.drop_last(), key)
    }
}

/// The kinds registered by the I2C buses and their devices.
pub open spec fn i2c_kinds(bs: Seq<I2cBus>) -> Seq<(Seq<char>, Seq<char>)>
    decreases bs.len(),
{
    if bs.len() == 0 {
        Seq::empty()
    } else {
        i2c_kinds(bs.drop_last()).push((bs.last().label@, "i2c"@)) + bs.last().devices@.map_values(
            |d: I2cDevice| (d.label@, "i2c"@),
        )
    }
}

/// The kinds registered by the SPI buses and their devices.
pub open spec fn spi_kinds(bs: Seq<SpiBus>) -> Seq<(Seq<char>, Seq<char>)>
    decreases bs.len(),
{
    if bs.len() == 0 {
        Seq::empty()
    } else {
        spi_kinds(bs.drop_last()).push((bs.last().label@, "spi"@)) + bs.last().devices@.map_values(
            |d: SpiDevice| (d.label@, "spi"@),
        )
    }
}

/// Each peripheral label with its one-word kind, in declaration order.
pub open spec fn kind_entries(board: Board) -> Seq<(Seq<char>, Seq<char>)> {
    board.gpios@.map_values(|g: Gpio| (g.label@, "gpio"@)) + i2c_kinds(board.i2c_buses@) + spi_kinds(
        board.spi_buses@,
    ) + board.uarts@.map_values(|u: Uart| (u.label@, "uart"@))
}

/// The kind of a label: that of the last peripheral with it, `?` if none.
pub open spec fn kind_of(board: Board, label: Seq<char>) -> Seq<char> {
    match last_value(kind_entries(board), label) {
        Some(k) => k,
        None => "?"@,
    }
}

/// One line of the dependency-graph section.
pub open spec fn dep_line(board: Board, g: &DepGraph, label: Seq<char>) -> Seq<char> {
    let deps = sorted_of(g.dep_set(label));
    "  "@ + label + " ("@ + kind_of(board, label) + ")"@ + if deps.len() == 0 {
        " \u{2014} no dependencies\n"@
    } else {
        " \u{2014} depends on: "@ + join(deps, ", "@) + "\n"@
    }
}

/// The dependency-graph lines of a run of labels.
pub open spec fn graph_lines(board: Board, g: &DepGraph, labels: Seq<Seq<char>>) -> Seq<char>
    decreases labels.len(),
{
    if labels.len() == 0 {
        Seq::empty()
    } else {
        graph_lines(board, g, labels.drop_last()) + dep_line(board, g, labels.last())
    }
}

/// The init-order lines, one per layer.
pub open spec fn order_lines(layers: Seq<Seq<Seq<char>>>) -> Seq<char>
    decreases layers.len(),
{
    if layers.len() == 0 {
        Seq::empty()
    } else {
        order_lines(layers.drop_last()) + "  Layer "@ + dec((layers.len() - 1) as nat) + ": "@ + join(
            layers.last(),
            ", "@,
        ) + "\n"@
    }
}

/// A bulleted line per warning.
pub open spec fn bullets(ws: Seq<Seq<char>>) -> Seq<char>
    decreases ws.len(),
{
    if ws.len() == 0 {
        Seq::empty()
    } else {
        bullets(ws.drop_last()) + "  - "@ + ws.last() + "\n"@
    }
}

/// The warnings section's body.
pub open spec fn warnings_block(ws: Seq<Seq<char>>) -> Seq<char> {
    if ws.len() == 0 {
        "  [none]\n"@
    } else {
        bullets(ws)
    }
}

/// A bus's estimated utilization as shown in the report.
pub open spec fn utilization_text(b: I2cBus) -> Seq<char> {
    if has_estimate(b) {
        "~"@ + dec(percent(b)) + "%"@
    } else {
        "n/a (no poll rates)"@
    }
}

/// A bus's line in the resource section.
pub open spec fn bus_line(b: I2cBus) -> Seq<char> {
    "    "@ + b.label@ + " @ "@ + dec(b.speed_khz as nat) + " kHz, "@ + counted(b.devices@.len(), "device"@, "devices"@)
        + ", est. utilization "@ + utilization_text(b) + "\n"@
}

/// One line per I2C bus in the resource section.
pub open spec fn bus_lines(bs: Seq<I2cBus>) -> Seq<char>
    decreases bs.len(),
{
    if bs.len() == 0 {
        Seq::empty()
    } else {
        bus_lines(bs.drop_last()) + bus_line(bs.last())
    }
}

/// A line without the carriage return that ended it.
pub open spec fn strip_cr(line: Seq<char>) -> Seq<char> {
    if line.len() > 0 && line.last() == '\r' {
        line.drop_last()
    } else {
        line
    }
}

/// Reading `t` line by line (as `str::lines` splits it): the indented lines
/// finished so far, and the characters of the line in progress.
pub open spec fn indent_state(t: Seq<char>) -> (Seq<char>, Seq<char>)
    decreases t.len(),
{
    if t.len() == 0 {
        (Seq::empty(), Seq::empty())
    } else {
        let (done, cur) = indent_state(t.drop_last());
        if t.last() == '\n' {
            (done + "  "@ + strip_cr(cur) + "\n"@, Seq::empty())
        } else {
            (done, cur.push(t.last()))
        }
    }
}

/// Every line of `t` indented by two spaces and ended by a newline.
pub open spec fn indent_lines(t: Seq<char>) -> Seq<char> {
    let (done, cur) = indent_state(t);
    if cur.len() > 0 {
        done + "  "@ + cur + "\n"@
    } else {
        done
    }
}

/// A line giving a count: `<prefix><count> <noun>`.
pub open spec fn count_line(prefix: Seq<char>, count: nat, singular: Seq<char>, plural: Seq<char>) -> Seq<char> {
    prefix + counted(count, singular, plural) + "\n"@
}

/// The resource-utilization section's body.
pub open spec fn resource_lines(board: Board) -> Seq<char> {
    count_line("  GPIO:  "@, board.gpios@.len(), "pin"@, "pins"@) + count_line(
        "  I2C:   "@,
        board.i2c_buses@.len(),
        "bus"@,
        "buses"@,
    ) + bus_lines(board.i2c_buses@) + count_line("  SPI:   "@, board.spi_buses@.len(), "bus"@, "buses"@)
        + count_line("  UART:  "@, board.uarts@.len(), "port"@, "ports"@)
}

/// The text of `analysis.txt`, generated at Unix time `secs`.
pub open spec fn report_text(
    board: Board,
    g: &DepGraph,
    layers: Seq<Seq<Seq<char>>>,
    warnings: Seq<Seq<char>>,
    secs: int,
) -> Seq<char> {
    "Forge Analysis Report \u{2014} "@ + board.name@ + "\n"@ + "Generated: "@ + timestamp(secs) + "\n\n"@
        + "DEPENDENCY GRAPH\n"@ + graph_lines(board, g, sorted_of(g.node_set())) + "\nINIT ORDER ("@ + dec(
        layers.len(),
    ) + " layers)\n"@ + order_lines(layers) + "\nWARNINGS\n"@ + warnings_block(warnings)
        + "\nRESOURCE UTILIZATION\n"@ + resource_lines(board) + "\nSUMMARY\n"@ + indent_lines(
        summary_text(board, layers.len()),
    )
}

/// The characters of a list of label/kind pairs.
pub open spec fn pair_views(v: Seq<(String, String)>) -> Seq<(Seq<char>, Seq<char>)> {
    v.map_values(|e: (String, String)| (e.0@, e.1@))
}

/// Register one label with its kind.
fn push_kind(v: &mut Vec<(String, String)>, label: &String, kind: &str)
    ensures
        pair_views(final(v)@) == pair_views(old(v)@).push((label@, kind@)),
{
    let ghost before = v@;
    v.push((label.clone(), owned(kind)));
    assert(pair_views(v@) =~= pair_views(before).push((label@, kind@)));
}

/// Map each peripheral label to a one-word kind, for the report's graph view.
fn node_kinds(board: &Board) -> (r: Vec<(String, String)>)
    ensures
        pair_views(r@) == kind_entries(*board),
{
    let mut v: Vec<(String, String)> = Vec::new();
    for i in 0..board.gpios.len()
        invariant
            pair_views(v@) == board.gpios@.take(i as int).map_values(|g: Gpio| (g.label@, "gpio"@)),
    {
        push_kind(&mut v, &board.gpios[i].label, "gpio");
        assert(board.gpios@.take(i + 1).map_values(|g: Gpio| (g.label@, "gpio"@)) =~= board.gpios@.take(
            i as int,
        ).map_values(|g: Gpio| (g.label@, "gpio"@)).push((board.gpios@[i as int].label@, "gpio"@)));
    }
    assert(board.gpios@.take(board.gpios@.len() as int) =~= board.gpios@);
    let ghost base = pair_views(v@);
    for i in 0..board.i2c_buses.len()
        invariant
            pair_views(v@) == base + i2c_kinds(board.i2c_buses@.take(i as int)),
    {
        assert(board.i2c_buses@.take(i + 1).drop_last() =~= board.i2c_buses@.take(i as int));
        let b = &board.i2c_buses[i];
        push_kind(&mut v, &b.label, "i2c");
        let ghost mid = pair_views(v@);
        for j in 0..b.devices.len()
            invariant
                pair_views(v@) == mid + b.devices@.take(j as int).map_values(|d: I2cDevice| (d.label@, "i2c"@)),
        {
            push_kind(&mut v, &b.devices[j].label, "i2c");
            assert(b.devices@.take(j + 1).map_values(|d: I2cDevice| (d.label@, "i2c"@)) =~= b.devices@.take(
                j as int,
            ).map_values(|d: I2cDevice| (d.label@, "i2c"@)).push((b.devices@[j as int].label@, "i2c"@)));
        }
        assert(b.devices@.take(b.devices@.len() as int) =~= b.devices@);
        assert(pair_views(v@) =~= base + i2c_kinds(board.i2c_buses@.take(i + 1)));
    }
    assert(board.i2c_buses@.take(board.i2c_buses@.len() as int) =~= board.i2c_buses@);
    let ghost base2 = pair_views(v@);
    for i in 0..board.spi_buses.len()
        invariant
            pair_views(v@) == base2 + spi_kinds(board.spi_buses@.take(i as int)),
    {
        assert(board.spi_buses@.take(i + 1).drop_last() =~= board.spi_buses@.take(i as int));
        let b = &board.spi_buses[i];
        push_kind(&mut v, &b.label, "spi");
        let ghost mid = pair_views(v@);
        for j in 0..b.devices.len()
            invariant
                pair_views(v@) == mid + b.devices@.take(j as int).map_values(|d: SpiDevice| (d.label@, "spi"@)),
        {
            push_kind(&mut v, &b.devices[j].label, "spi");
            assert(b.devices@.take(j + 1).map_values(|d: SpiDevice| (d.label@, "spi"@)) =~= b.devices@.take(
                j as int,
            ).map_values(|d: SpiDevice| (d.label@, "spi"@)).push((b.devices@[j as int].label@, "spi"@)));
        }
        assert(b.devices@.take(b.devices@.len() as int) =~= b.devices@);
        assert(pair_views(v@) =~= base2 + spi_kinds(board.spi_buses@.take(i + 1)));
    }
    assert(board.spi_buses@.take(board.spi_buses@.len() as int) =~= board.spi_buses@);
    let ghost base3 = pair_views(v@);
    for i in 0..board.uarts.len()
        invariant
            pair_views(v@) == base3 + board.uarts@.take(i as int).map_values(|u: Uart| (u.label@, "uart"@)),
    {
        push_kind(&mut v, &board.uarts[i].label, "uart");
        assert(board.uarts@.take(i + 1).map_values(|u: Uart| (u.label@, "uart"@)) =~= board.uarts@.take(
            i as int,
        ).map_values(|u: Uart| (u.label@, "uart"@)).push((board.uarts@[i as int].label@, "uart"@)));
    }
    assert(board.uarts@.take(board.uarts@.len() as int) =~= board.uarts@);
    v
}

/// Append the kind of `label` (see [`kind_of`]).
fn push_kind_of(s: &mut String, kinds: &Vec<(String, String)>, label: &str)
    ensures
        final(s)@ == old(s)@ + match last_value(pair_views(kinds@), label@) {
            Some(k) => k,
            None => "?"@,
        },
{
    let mut i = kinds.len();
    assert(pair_views(kinds@).take(kinds@.len() as int) =~= pair_views(kinds@));
    while i > 0
        invariant
            i <= kinds@.len(),
            s@ == old(s)@,
            last_value(pair_views(kinds@), label@) == last_value(pair_views(kinds@).take(i as int), label@),
        decreases i,
    {
        assert(pair_views(kinds@).take(i as int).drop_last() =~= pair_views(kinds@).take(i - 1));
        assert(pair_views(kinds@).take(i as int).last() == (kinds@[i - 1].0@, kinds@[i - 1].1@));
        if str_eq(kinds[i - 1].0.as_str(), label) {
            push_str(s, kinds[i - 1].1.as_str());
            return;
        }
        i -= 1;
    }
    assert(pair_views(kinds@).take(0) =~= Seq::<(Seq<char>, Seq<char>)>::empty());
    push_str(s, "?");
}

/// Append the dependency-graph section's lines.
fn push_graph_lines(s: &mut String, board: &Board, graph: &DepGraph, kinds: &Vec<(String, String)>)
    requires
        pair_views(kinds@) == kind_entries(*board),
    ensures
        final(s)@ == old(s)@ + graph_lines(*board, graph, sorted_of(graph.node_set())),
{
    proof {
        use_type_invariant(graph);
    }
    let labels = graph.sorted_node_labels();
    let ghost ls = views(labels@);
    let ghost start = s@;
    for i in 0..labels.len()
        invariant
            pair_views(kinds@) == kind_entries(*board),
            ls == views(labels@),
            s@ == start + graph_lines(*board, graph, ls.take(i as int)),
    {
        assert(ls.take(i + 1).drop_last() =~= ls.take(i as int));
        let label = labels[i].as_str();
        let deps = graph.sorted_dependencies(label);
        let ghost prev = s@;
        push_str(s, "  ");
        push_str(s, label);
        push_str(s, " (");
        push_kind_of(s, kinds, label);
        push_str(s, ")");
        if deps.len() == 0 {
            push_str(s, " \u{2014} no dependencies\n");
        } else {
            push_str(s, " \u{2014} depends on: ");
            let joined = join_all(&deps, ", ");
            assert(deps@.map_values(|p: String| p@) =~= views(deps@));
            push_str(s, joined.as_str());
            push_str(s, "\n");
        }
        assert(s@ =~= prev + dep_line(*board, graph, ls[i as int]));
        assert(s@ =~= start + graph_lines(*board, graph, ls.take(i + 1)));
    }
    assert(ls.take(labels@.len() as int) =~= ls);
}

/// Append the init-order lines.
fn push_order_lines(s: &mut String, layers: &[Vec<String>])
    ensures
        final(s)@ == old(s)@ + order_lines(layer_views(layers@)),
{
    let ghost ls = layer_views(layers@);
    let ghost start = s@;
    for i in 0..layers.len()
        invariant
            ls == layer_views(layers@),
            s@ == start + order_lines(ls.take(i as int)),
    {
        assert(ls.take(i + 1).drop_last() =~= ls.take(i as int));
        push_str(s, "  Layer ");
        push_dec(s, i as u64);
        push_str(s, ": ");
        let joined = join_all(&layers[i], ", ");
        assert(layers@[i as int]@.map_values(|p: String| p@) =~= views(layers@[i as int]@));
        push_str(s, joined.as_str());
        push_str(s, "\n");
        assert(s@ =~= start + order_lines(ls.take(i + 1)));
    }
    assert(ls.take(layers@.len() as int) =~= ls);
}

/// Append the warnings section's body.
fn push_warning_lines(s: &mut String, warnings: &[String])
    ensures
        final(s)@ == old(s)@ + warnings_block(views(warnings@)),
{
    if warnings.len() == 0 {
        push_str(s, "  [none]\n");
        return;
    }
    let ghost ws = views(warnings@);
    let ghost start = s@;
    for i in 0..warnings.len()
        invariant
            ws == views(warnings@),
            s@ == start + bullets(ws.take(i as int)),
    {
        assert(ws.take(i + 1).drop_last() =~= ws.take(i as int));
        push_str(s, "  - ");
        push_str(s, warnings[i].as_str());
        push_str(s, "\n");
        assert(s@ =~= start + bullets(ws.take(i + 1)));
    }
    assert(ws.take(warnings@.len() as int) =~= ws);
}

/// Append a bus's line in the resource section.
fn push_bus_line(s: &mut String, b: &I2cBus)
    ensures
        final(s)@ == old(s)@ + bus_line(*b),
{
    push_str(s, "    ");
    push_str(s, b.label.as_str());
    push_str(s, " @ ");
    push_dec(s, b.speed_khz as u64);
    push_str(s, " kHz, ");
    push_counted(s, b.devices.len(), "device", "devices");
    push_str(s, ", est. utilization ");
    match utilization_percent(b) {
        Some(p) => {
            push_str(s, "~");
            push_dec(s, p as u64);
            push_str(s, "%");
        },
        None => push_str(s, "n/a (no poll rates)"),
    }
    push_str(s, "\n");
    assert(final(s)@ =~= old(s)@ + bus_line(*b));
}

/// Append a line giving a count (see [`count_line`]).
fn push_count_line(s: &mut String, prefix: &str, count: usize, singular: &str, plural: &str)
    ensures
        final(s)@ == old(s)@ + count_line(prefix@, count as nat, singular@, plural@),
{
    push_str(s, prefix);
    push_counted(s, count, singular, plural);
    push_str(s, "\n");
    assert(final(s)@ =~= old(s)@ + count_line(prefix@, count as nat, singular@, plural@));
}

/// Append the resource section's body.
fn push_resource_lines(s: &mut String, board: &Board)
    ensures
        final(s)@ == old(s)@ + resource_lines(*board),
{
    let ghost start = s@;
    push_count_line(s, "  GPIO:  ", board.gpios.len(), "pin", "pins");
    push_count_line(s, "  I2C:   ", board.i2c_buses.len(), "bus", "buses");
    let ghost mid = s@;
    for i in 0..board.i2c_buses.len()
        invariant
            s@ == mid + bus_lines(board.i2c_buses@.take(i as int)),
    {
        assert(board.i2c_buses@.take(i + 1).drop_last() =~= board.i2c_buses@.take(i as int));
        push_bus_line(s, &board.i2c_buses[i]);
    }
    assert(board.i2c_buses@.take(board.i2c_buses@.len() as int) =~= board.i2c_buses@);
    let ghost after = s@;
    push_count_line(s, "  SPI:   ", board.spi_buses.len(), "bus", "buses");
    push_count_line(s, "  UART:  ", board.uarts.len(), "port", "ports");
    assert(final(s)@ =~= old(s)@ + resource_lines(*board));
}

/// Append every line of `text` indented by two spaces (see
/// [`indent_lines`]).
fn push_indented(s: &mut String, text: &str)
    ensures
        final(s)@ == old(s)@ + indent_lines(text@),
{
    let cs = chars_of(text);
    let ghost start = s@;
    let mut cur: Vec<char> = Vec::new();
    for i in 0..cs.len()
        invariant
            cs@ == text@,
            s@ == start + indent_state(cs@.take(i as int)).0,
            cur@ == indent_state(cs@.take(i as int)).1,
    {
        assert(cs@.take(i + 1).drop_last() =~= cs@.take(i as int));
        let c = cs[i];
        if c == '\n' {
            push_str(s, "  ");
            let n = cur.len();
            let keep = if n > 0 && cur[n - 1] == '\r' {
                n - 1
            } else {
                n
            };
            let ghost before = s@;
            for k in 0..keep
                invariant
                    keep <= cur@.len(),
                    s@ == before + cur@.take(k as int),
            {
                push_char(s, cur[k]);
                assert(s@ =~= before + cur@.take(k + 1));
            }
            assert(cur@.take(keep as int) =~= strip_cr(cur@));
            push_str(s, "\n");
            cur = Vec::new();
            assert(cur@ =~= Seq::<char>::empty());
        } else {
            cur.push(c);
        }
    }
    assert(cs@.take(cs@.len() as int) =~= cs@);
    if cur.len() > 0 {
        push_str(s, "  ");
        let ghost before = s@;
        for k in 0..cur.len()
            invariant
                s@ == before + cur@.take(k as int),
        {
            push_char(s, cur[k]);
            assert(s@ =~= before + cur@.take(k + 1));
        }
        assert(cur@.take(cur@.len() as int) =~= cur@);
        push_str(s, "\n");
    }
    assert(final(s)@ =~= old(s)@ + indent_lines(text@));
}

/// Render the full analysis report as it reads at Unix time `secs`.
pub fn render_at(
    board: &Board,
    graph: &DepGraph,
    layers: &[Vec<String>],
    warnings: &[String],
    secs: i64,
) -> (r: String)
    ensures
        r@ == report_text(
            *board,
            graph,
            layer_views(layers@),
            views(warnings@),
            secs as int,
        ),
{
    proof {
        use_type_invariant(graph);
    }
    let kinds = node_kinds(board);
    let mut s = owned("Forge Analysis Report \u{2014} ");
    push_str(&mut s, board.name.as_str());
    push_str(&mut s, "\n");
    push_str(&mut s, "Generated: ");
    let stamp = format_timestamp(secs);
    push_str(&mut s, stamp.as_str());
    push_str(&mut s, "\n\n");
    push_str(&mut s, "DEPENDENCY GRAPH\n");
    push_graph_lines(&mut s, board, graph, &kinds);
    push_str(&mut s, "\nINIT ORDER (");
    push_dec(&mut s, layers.len() as u64);
    push_str(&mut s, " layers)\n");
    push_order_lines(&mut s, layers);
    push_str(&mut s, "\nWARNINGS\n");
    push_warning_lines(&mut s, warnings);
    push_str(&mut s, "\nRESOURCE UTILIZATION\n");
    push_resource_lines(&mut s, board);
    push_str(&mut s, "\nSUMMARY\n");
    let summary = render_summary(board, layers.len());
    push_indented(&mut s, summary.as_str());
    assert(s@ =~= report_text(
        *board,
        graph,
        layer_views(layers@),
        views(warnings@),
        secs as int,
    ));
    s
}

/// Render the full analysis report, stamped with the current time.
pub fn render(board: &Board, graph: &DepGraph, layers: &[Vec<String>], warnings: &[String]) -> (r: String)
    ensures
        exists|t: i64|
            r@ == #[trigger] report_text(
                *board,
                graph,
                layer_views(layers@),
                views(warnings@),
                t as int,
            ),
{
    proof {
        use_type_invariant(graph);
    }
    let t = unix_seconds();
    render_at(board, graph, layers, warnings, t)
}

} // verus!
