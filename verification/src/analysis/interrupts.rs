//! Interrupt-density analysis.

use vstd::prelude::*;
use crate::model::{Board, Gpio};
use crate::text::{dec, push_str, push_dec};

verus! {

/// Warn when more than this many GPIO interrupts are configured.
pub const MAX_INTERRUPTS: usize = 3;

/// The number of pins configured with an interrupt.
pub open spec fn interrupt_pins(gs: Seq<Gpio>) -> nat
    decreases gs.len(),
{
    if gs.len() == 0 {
        0
    } else {
        interrupt_pins(gs.drop_last()) + if gs.last().interrupt is Some {
            1nat
        } else {
            0nat
        }
    }
}

/// The warnings about interrupt density: one when there are too many.
pub open spec fn density_warnings(board: Board) -> Seq<Seq<char>> {
    let count = interrupt_pins(board.gpios@);
    if count > MAX_INTERRUPTS {
        seq![
            dec(count) + " GPIO interrupts configured. High interrupt density may cause missed interrupts or excessive ISR overhead. Consider polling for lower-priority signals."@,
        ]
    } else {
        Seq::empty()
    }
}

/// Number of GPIO pins configured with an interrupt.
pub fn interrupt_count(board: &Board) -> (r: usize)
    ensures
        r == interrupt_pins(board.gpios@),
        r == board.gpios@.filter(|g: Gpio| g.interrupt is Some).len(),
{
    proof {
        lemma_interrupt_pins_count(board.gpios@);
    }
    let mut count: usize = 0;
    for i in 0..board.gpios.len()
        invariant
            count == interrupt_pins(board.gpios@.take(i as int)),
            count <= i,
    {
        assert(board.gpios@.take(i + 1).drop_last() =~= board.gpios@.take(i as int));
        if board.gpios[i].interrupt.is_some() {
            count = count + 1;
        }
    }
    assert(board.gpios@.take(board.gpios@.len() as int) =~= board.gpios@);
    count
}

/// Produce a warning if interrupt density is high.
pub fn check(board: &Board) -> (r: Vec<String>)
    ensures
        r@.map_values(|w: String| w@) == density_warnings(*board),
{
    let count = interrupt_count(board);
    let mut out: Vec<String> = Vec::new();
    if count > MAX_INTERRUPTS {
        let mut w = String::new();
        push_dec(&mut w, count as u64);
        push_str(
            &mut w,
            " GPIO interrupts configured. High interrupt density may cause missed interrupts or excessive ISR overhead. Consider polling for lower-priority signals.",
        );
        out.push(w);
        assert(out@.map_values(|w: String| w@) =~= density_warnings(*board));
    } else {
        assert(out@.map_values(|w: String| w@) =~= density_warnings(*board));
    }
    out
}

/// The pins counted as configured with an interrupt are exactly the GPIOs
/// whose interrupt is set, whatever its edge.
pub proof fn lemma_interrupt_pins_count(gs: Seq<Gpio>)
    ensures
        interrupt_pins(gs) == gs.filter(|g: Gpio| g.interrupt is Some).len(),
    decreases gs.len(),
{
    reveal(Seq::filter);
    if gs.len() > 0 {
        lemma_interrupt_pins_count(gs.drop_last());
    }
}

/// Counting over two runs of GPIOs adds up.
pub proof fn lemma_interrupt_pins_add(gs: Seq<Gpio>, hs: Seq<Gpio>)
    ensures
        interrupt_pins(gs + hs) == interrupt_pins(gs) + interrupt_pins(hs),
    decreases hs.len(),
{
    if hs.len() > 0 {
        lemma_interrupt_pins_add(gs, hs.drop_last());
        assert((gs + hs).drop_last() =~= gs + hs.drop_last());
    } else {
        assert(gs + hs =~= gs);
    }
}

} // verus!
