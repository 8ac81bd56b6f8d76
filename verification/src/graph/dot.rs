//! Export a dependency graph as Graphviz DOT.

use vstd::prelude::*;
use crate::model::{Board, Gpio, I2cBus, I2cDevice, SpiBus, SpiDevice, Uart};
use crate::text::{
    cat, dec, hex_byte, lemma_cat_push, push_dec, push_hex_byte, push_str, str_eq,
};
use super::DepGraph;
use super::builder::{edge_views, lemma_edge_views_push};
use super::sort::{sorted_of, views};

verus! {

/// The descriptor of each peripheral, in declaration order (a label declared
/// twice appears twice; the later entry wins).
pub open spec fn label_details(board: &Board) -> Seq<(Seq<char>, Seq<char>)> {
    board.gpios@.map_values(|g: Gpio| (g.label@, "gpio pin "@ + dec(g.pin as nat))) + cat(
        board.i2c_buses@.map_values(|b: I2cBus| i2c_details(b)),
    ) + cat(board.spi_buses@.map_values(|b: SpiBus| spi_details(b))) + board.uarts@.map_values(
        |u: Uart| (u.label@, "uart "@ + dec(u.index as nat)),
    )
}

/// The descriptors an I2C bus contributes.
pub open spec fn i2c_details(b: I2cBus) -> Seq<(Seq<char>, Seq<char>)> {
    seq![(b.label@, "i2c bus "@ + dec(b.bus as nat))] + b.devices@.map_values(
        |d: I2cDevice| (d.label@, "i2c "@ + hex_byte(d.address as nat)),
    )
}

/// The descriptors an SPI bus contributes.
pub open spec fn spi_details(b: SpiBus) -> Seq<(Seq<char>, Seq<char>)> {
    seq![(b.label@, "spi bus "@ + dec(b.bus as nat))] + b.devices@.map_values(
        |d: SpiDevice| (d.label@, "spi cs "@ + dec(d.cs_pin as nat)),
    )
}

/// The last descriptor recorded for a label.
pub open spec fn last_detail(ds: Seq<(Seq<char>, Seq<char>)>, l: Seq<char>) -> Option<Seq<char>>
    decreases ds.len(),
{
    if ds.len() == 0 {
        None
    } else if ds.last().0 == l {
        Some(ds.last().1)
    } else {
        last_detail(ds.drop_last(), l)
    }
}

/// The descriptor shown for a label, `unknown` if none.
pub open spec fn detail_of(board: &Board, l: Seq<char>) -> Seq<char> {
    match last_detail(label_details(board), l) {
        Some(d) => d,
        None => "unknown"@,
    }
}

/// The DOT declaration of one node.
pub open spec fn node_line(board: &Board, l: Seq<char>) -> Seq<char> {
    "    "@ + l + " [shape=box, label=\""@ + l + "\\n("@ + detail_of(board, l) + ")\"];\n"@
}

/// The DOT declaration of one edge.
pub open spec fn edge_line(a: Seq<char>, b: Seq<char>) -> Seq<char> {
    "    "@ + a + " -> "@ + b + ";\n"@
}

/// The DOT lines of every edge out of `l`, dependencies alphabetically.
pub open spec fn edge_lines(g: &DepGraph, l: Seq<char>) -> Seq<char> {
    cat(sorted_of(g.dep_set(l)).map_values(|d: Seq<char>| edge_line(l, d)))
}

/// The whole DOT document: nodes alphabetically, then edges sorted by
/// dependent and then dependency.
pub open spec fn dot_text(board: &Board, g: &DepGraph) -> Seq<char> {
    "digraph board_init {\n"@ + "    rankdir=BT;\n"@ + cat(
        sorted_of(g.node_set()).map_values(|l: Seq<char>| node_line(board, l)),
    ) + cat(sorted_of(g.node_set()).map_values(|l: Seq<char>| edge_lines(g, l))) + "}\n"@
}

/// A descriptor string: a prefix and a decimal number.
fn detail_dec(prefix: &str, n: u32) -> (r: String)
    ensures
        r@ == prefix@ + dec(n as nat),
{
    let mut s = String::new();
    push_str(&mut s, prefix);
    push_dec(&mut s, n as u64);
    s
}

/// Map each peripheral label to a short descriptor used in DOT node labels.
fn node_details(board: &Board) -> (r: Vec<(String, String)>)
    ensures
        edge_views(r@) == label_details(board),
{
    let mut r: Vec<(String, String)> = Vec::new();
    let ghost gd = board.gpios@.map_values(|g: Gpio| (g.label@, "gpio pin "@ + dec(g.pin as nat)));
    let ghost id = board.i2c_buses@.map_values(|b: I2cBus| i2c_details(b));
    let ghost sd = board.spi_buses@.map_values(|b: SpiBus| spi_details(b));
    let ghost ud = board.uarts@.map_values(|u: Uart| (u.label@, "uart "@ + dec(u.index as nat)));
    for i in 0..board.gpios.len()
        invariant
            i <= board.gpios@.len(),
            gd == board.gpios@.map_values(|g: Gpio| (g.label@, "gpio pin "@ + dec(g.pin as nat))),
            edge_views(r@) == gd.take(i as int),
    {
        let ghost q = r@;
        let e = (board.gpios[i].label.clone(), detail_dec("gpio pin ", board.gpios[i].pin));
        let ghost q = r@;
        let ghost ec = e;
        r.push(e);
        proof {
            lemma_edge_views_push(q, ec);
            assert(edge_views(r@) =~= gd.take(i + 1));
        }
    }
    proof {
        assert(gd.take(gd.len() as int) =~= gd);
        assert(cat(id.take(0)) =~= Seq::<(Seq<char>, Seq<char>)>::empty());
        assert(edge_views(r@) =~= gd + cat(id.take(0)));
    }
    for bi in 0..board.i2c_buses.len()
        invariant
            bi <= board.i2c_buses@.len(),
            id == board.i2c_buses@.map_values(|b: I2cBus| i2c_details(b)),
            edge_views(r@) == gd + cat(id.take(bi as int)),
    {
        let b = &board.i2c_buses[bi];
        let ghost base = edge_views(r@);
        let e = (b.label.clone(), detail_dec("i2c bus ", b.bus));
        let ghost q = r@;
        let ghost ec = e;
        r.push(e);
        proof {
            lemma_edge_views_push(q, ec);
            assert(edge_views(r@) =~= base + seq![(b.label@, "i2c bus "@ + dec(b.bus as nat))]);
        }
        for di in 0..b.devices.len()
            invariant
                di <= b.devices@.len(),
                edge_views(r@) == base + seq![(b.label@, "i2c bus "@ + dec(b.bus as nat))]
                    + b.devices@.take(di as int).map_values(|d: I2cDevice| (d.label@, "i2c "@ + hex_byte(d.address as nat))),
        {
            let mut s = String::new();
            push_str(&mut s, "i2c ");
            push_hex_byte(&mut s, b.devices[di].address as u64);
            let e = (b.devices[di].label.clone(), s);
            let ghost q = r@;
            let ghost ec = e;
            r.push(e);
            proof {
                lemma_edge_views_push(q, ec);
                assert(edge_views(r@) =~= base + seq![(b.label@, "i2c bus "@ + dec(b.bus as nat))]
                    + b.devices@.take(di + 1).map_values(|d: I2cDevice| (d.label@, "i2c "@ + hex_byte(d.address as nat))));
            }
        }
        proof {
            assert(b.devices@.take(b.devices@.len() as int) =~= b.devices@);
            assert(id.take(bi + 1) =~= id.take(bi as int).push(id[bi as int]));
            lemma_cat_push(id.take(bi as int), id[bi as int]);
            assert(edge_views(r@) =~= gd + cat(id.take(bi + 1)));
        }
    }
    proof {
        assert(id.take(id.len() as int) =~= id);
        assert(cat(sd.take(0)) =~= Seq::<(Seq<char>, Seq<char>)>::empty());
        assert(edge_views(r@) =~= gd + cat(id) + cat(sd.take(0)));
    }
    for bi in 0..board.spi_buses.len()
        invariant
            bi <= board.spi_buses@.len(),
            id == board.i2c_buses@.map_values(|b: I2cBus| i2c_details(b)),
            sd == board.spi_buses@.map_values(|b: SpiBus| spi_details(b)),
            edge_views(r@) == gd + cat(id) + cat(sd.take(bi as int)),
    {
        let b = &board.spi_buses[bi];
        let ghost base = edge_views(r@);
        let e = (b.label.clone(), detail_dec("spi bus ", b.bus));
        let ghost q = r@;
        let ghost ec = e;
        r.push(e);
        proof {
            lemma_edge_views_push(q, ec);
            assert(edge_views(r@) =~= base + seq![(b.label@, "spi bus "@ + dec(b.bus as nat))]);
        }
        for di in 0..b.devices.len()
            invariant
                di <= b.devices@.len(),
                edge_views(r@) == base + seq![(b.label@, "spi bus "@ + dec(b.bus as nat))]
                    + b.devices@.take(di as int).map_values(|d: SpiDevice| (d.label@, "spi cs "@ + dec(d.cs_pin as nat))),
        {
            let e = (b.devices[di].label.clone(), detail_dec("spi cs ", b.devices[di].cs_pin));
            let ghost q = r@;
            let ghost ec = e;
            r.push(e);
            proof {
                lemma_edge_views_push(q, ec);
                assert(edge_views(r@) =~= base + seq![(b.label@, "spi bus "@ + dec(b.bus as nat))]
                    + b.devices@.take(di + 1).map_values(|d: SpiDevice| (d.label@, "spi cs "@ + dec(d.cs_pin as nat))));
            }
        }
        proof {
            assert(b.devices@.take(b.devices@.len() as int) =~= b.devices@);
            assert(sd.take(bi + 1) =~= sd.take(bi as int).push(sd[bi as int]));
            lemma_cat_push(sd.take(bi as int), sd[bi as int]);
            assert(edge_views(r@) =~= gd + cat(id) + cat(sd.take(bi + 1)));
        }
    }
    proof {
        assert(sd.take(sd.len() as int) =~= sd);
    }
    let ghost base = edge_views(r@);
    for i in 0..board.uarts.len()
        invariant
            i <= board.uarts@.len(),
            ud == board.uarts@.map_values(|u: Uart| (u.label@, "uart "@ + dec(u.index as nat))),
            edge_views(r@) == base + ud.take(i as int),
    {
        let e = (board.uarts[i].label.clone(), detail_dec("uart ", board.uarts[i].index));
        let ghost q = r@;
        let ghost ec = e;
        r.push(e);
        proof {
            lemma_edge_views_push(q, ec);
            assert(edge_views(r@) =~= base + ud.take(i + 1));
        }
    }
    proof {
        assert(ud.take(ud.len() as int) =~= ud);
    }
    r
}

/// The descriptor of a label: the last one recorded, or `unknown`.
fn lookup_detail(details: &Vec<(String, String)>, label: &str) -> (r: String)
    ensures
        r@ == match last_detail(edge_views(details@), label@) {
            Some(d) => d,
            None => "unknown"@,
        },
{
    let ghost ds = edge_views(details@);
    let mut k = details.len();
    proof {
        assert(ds.take(k as int) =~= ds);
    }
    while k > 0
        invariant
            k <= details@.len(),
            ds == edge_views(details@),
            last_detail(ds, label@) == last_detail(ds.take(k as int), label@),
        decreases k,
    {
        proof {
            assert(ds.take(k as int).drop_last() =~= ds.take(k - 1));
        }
        if str_eq(details[k - 1].0.as_str(), label) {
            return details[k - 1].1.clone();
        }
        k -= 1;
    }
    owned_unknown()
}

/// The descriptor shown when a label has none.
fn owned_unknown() -> (r: String)
    ensures
        r@ == "unknown"@,
{
    crate::text::owned("unknown")
}

/// Render the dependency graph in Graphviz DOT format.
///
/// Edges point from a dependent to its dependency, so `rankdir=BT` draws
/// dependencies at the bottom and dependents above them: the order things
/// initialize, read upward.
pub fn to_dot(board: &Board, g: &DepGraph) -> (r: String)
    ensures
        r@ == dot_text(board, g),
{
    proof {
        use_type_invariant(g);
    }
    let details = node_details(board);
    let mut out = String::new();
    push_str(&mut out, "digraph board_init {\n");
    push_str(&mut out, "    rankdir=BT;\n");
    let labels = g.sorted_node_labels();
    let ghost ls = views(labels@);
    let ghost head = out@;
    let ghost nl = ls.map_values(|l: Seq<char>| node_line(board, l));
    proof {
        assert(cat(nl.take(0)) =~= Seq::<char>::empty());
        assert(out@ =~= head + cat(nl.take(0)));
    }
    for i in 0..labels.len()
        invariant
            i <= labels@.len(),
            ls == views(labels@),
            nl == ls.map_values(|l: Seq<char>| node_line(board, l)),
            edge_views(details@) == label_details(board),
            out@ == head + cat(nl.take(i as int)),
    {
        let label = labels[i].as_str();
        let detail = lookup_detail(&details, label);
        let ghost before = out@;
        push_str(&mut out, "    ");
        push_str(&mut out, label);
        push_str(&mut out, " [shape=box, label=\"");
        push_str(&mut out, label);
        push_str(&mut out, "\\n(");
        push_str(&mut out, detail.as_str());
        push_str(&mut out, ")\"];\n");
        proof {
            assert(out@ =~= before + node_line(board, ls[i as int]));
            assert(nl.take(i + 1) =~= nl.take(i as int).push(nl[i as int]));
            lemma_cat_push(nl.take(i as int), nl[i as int]);
        }
    }
    proof {
        assert(nl.take(nl.len() as int) =~= nl);
    }
    let ghost mid = out@;
    let ghost el = ls.map_values(|l: Seq<char>| edge_lines(g, l));
    proof {
        assert(cat(el.take(0)) =~= Seq::<char>::empty());
        assert(out@ =~= mid + cat(el.take(0)));
    }
    for i in 0..labels.len()
        invariant
            i <= labels@.len(),
            g.wf(),
            ls == views(labels@),
            el == ls.map_values(|l: Seq<char>| edge_lines(g, l)),
            out@ == mid + cat(el.take(i as int)),
    {
        let from = labels[i].as_str();
        let deps = g.sorted_dependencies(from);
        let ghost before = out@;
        let ghost dl = views(deps@).map_values(|d: Seq<char>| edge_line(from@, d));
        proof {
            assert(cat(dl.take(0)) =~= Seq::<char>::empty());
            assert(out@ =~= before + cat(dl.take(0)));
        }
        for j in 0..deps.len()
            invariant
                j <= deps@.len(),
                dl == views(deps@).map_values(|d: Seq<char>| edge_line(from@, d)),
                out@ == before + cat(dl.take(j as int)),
        {
            let ghost b2 = out@;
            push_str(&mut out, "    ");
            push_str(&mut out, from);
            push_str(&mut out, " -> ");
            push_str(&mut out, deps[j].as_str());
            push_str(&mut out, ";\n");
            proof {
                assert(out@ =~= b2 + edge_line(from@, views(deps@)[j as int]));
                assert(dl.take(j + 1) =~= dl.take(j as int).push(dl[j as int]));
                lemma_cat_push(dl.take(j as int), dl[j as int]);
            }
        }
        proof {
            assert(dl.take(dl.len() as int) =~= dl);
            assert(el[i as int] == cat(dl));
            assert(el.take(i + 1) =~= el.take(i as int).push(el[i as int]));
            lemma_cat_push(el.take(i as int), el[i as int]);
        }
    }
    push_str(&mut out, "}\n");
    proof {
        assert(el.take(el.len() as int) =~= el);
        assert(out@ =~= dot_text(board, g));
    }
    out
}

} // verus!
