//! GPIO code generation: one `gpio_init_<label>` per pin (so each can sit at
//! its own dependency layer) plus one ISR per interrupt-enabled pin.

use vstd::prelude::*;
use crate::model::Gpio;
use crate::model::board::{edge_macro, edge_text, gpio_mode_macro, gpio_mode_text};
use crate::text::{dec, owned, push_str, push_dec};

verus! {

/// `gpio_init_<label>`.
pub open spec fn gpio_init_name(g: Gpio) -> Seq<char> {
    "gpio_init_"@ + g.label@
}

/// `<label>_isr`.
pub open spec fn gpio_isr_name(g: Gpio) -> Seq<char> {
    g.label@ + "_isr"@
}

/// The declaration lines of the pins' init functions, each after a newline.
pub open spec fn gpio_decls(gs: Seq<Gpio>) -> Seq<char>
    decreases gs.len(),
{
    if gs.len() == 0 {
        Seq::empty()
    } else {
        gpio_decls(gs.drop_last()) + "\nvoid "@ + gpio_init_name(gs.last()) + "(void);"@
    }
}

/// The `init.h` block for the pins, absent when there are none.
pub open spec fn gpio_decl_section(gs: Seq<Gpio>) -> Option<Seq<char>> {
    if gs.len() == 0 {
        None
    } else {
        Some("/* GPIO */"@ + gpio_decls(gs))
    }
}

/// `, interrupt on <edge>` for an interrupt-enabled pin.
pub open spec fn interrupt_note(g: Gpio) -> Seq<char> {
    match g.interrupt {
        Some(e) => ", interrupt on "@ + edge_text(e),
        None => Seq::empty(),
    }
}

/// The interrupt attach line of an interrupt-enabled pin.
pub open spec fn attach_line(g: Gpio) -> Seq<char> {
    match g.interrupt {
        Some(e) => "    GPIO_ATTACH_INTERRUPT("@ + dec(g.pin as nat) + ", "@ + edge_macro(e) + ", "@
            + gpio_isr_name(g) + ");\n"@,
        None => Seq::empty(),
    }
}

/// The init function of one pin.
pub open spec fn gpio_impl(g: Gpio) -> Seq<char> {
    "void "@ + gpio_init_name(g) + "(void) {\n"@ + "    /* Pin "@ + dec(g.pin as nat) + ": "@ + g.label@ + " ("@
        + gpio_mode_text(g.mode) + interrupt_note(g) + ") */\n"@ + "    GPIO_SET_MODE("@ + dec(g.pin as nat)
        + ", "@ + gpio_mode_macro(g.mode) + ");\n"@ + attach_line(g) + "}"@
}

/// The declarations of the ISRs of the interrupt-enabled pins, each after a
/// newline.
pub open spec fn gpio_handler_decls(gs: Seq<Gpio>) -> Seq<char>
    decreases gs.len(),
{
    if gs.len() == 0 {
        Seq::empty()
    } else {
        gpio_handler_decls(gs.drop_last()) + if gs.last().interrupt is Some {
            "\nvoid "@ + gpio_isr_name(gs.last()) + "(void);"@
        } else {
            Seq::empty()
        }
    }
}

/// Some pin raises interrupts.
pub open spec fn any_interrupt(gs: Seq<Gpio>) -> bool {
    exists|i: int| 0 <= i < gs.len() && (#[trigger] gs[i]).interrupt is Some
}

/// The `handlers.h` block for GPIO ISRs, absent when no pin raises one.
pub open spec fn gpio_handler_decl_section(gs: Seq<Gpio>) -> Option<Seq<char>> {
    if any_interrupt(gs) {
        Some("/* GPIO interrupt handlers */"@ + gpio_handler_decls(gs))
    } else {
        None
    }
}

/// The ISR stub of an interrupt-enabled pin.
pub open spec fn gpio_handler(g: Gpio) -> Seq<char> {
    match g.interrupt {
        Some(e) => "void "@ + gpio_isr_name(g) + "(void) {\n    /* TODO: Handle "@ + edge_text(e) + " on pin "@
            + dec(g.pin as nat) + " ("@ + g.label@ + ") */\n}"@,
        None => Seq::empty(),
    }
}

/// The ISR stubs of the interrupt-enabled pins, in order.
pub open spec fn gpio_handlers(gs: Seq<Gpio>) -> Seq<Seq<char>>
    decreases gs.len(),
{
    if gs.len() == 0 {
        Seq::empty()
    } else if gs.last().interrupt is Some {
        gpio_handlers(gs.drop_last()).push(gpio_handler(gs.last()))
    } else {
        gpio_handlers(gs.drop_last())
    }
}

/// The C name of the per-pin init function.
pub fn init_name(g: &Gpio) -> (r: String)
    ensures
        r@ == gpio_init_name(*g),
{
    let mut s = owned("gpio_init_");
    push_str(&mut s, g.label.as_str());
    s
}

/// The C name of the ISR generated for an interrupt-enabled pin.
fn isr_name(g: &Gpio) -> (r: String)
    ensures
        r@ == gpio_isr_name(*g),
{
    let mut s = g.label.clone();
    push_str(&mut s, "_isr");
    s
}

/// Declaration block for `init.h`. `None` when there are no GPIO pins.
pub fn decl_section(gpios: &[Gpio]) -> (r: Option<String>)
    ensures
        crate::text::opt_str(r) == gpio_decl_section(gpios@),
{
    if gpios.len() == 0 {
        return None;
    }
    let mut s = owned("/* GPIO */");
    for i in 0..gpios.len()
        invariant
            s@ == "/* GPIO */"@ + gpio_decls(gpios@.take(i as int)),
    {
        assert(gpios@.take(i + 1).drop_last() =~= gpios@.take(i as int));
        push_str(&mut s, "\nvoid ");
        let name = init_name(&gpios[i]);
        push_str(&mut s, name.as_str());
        push_str(&mut s, "(void);");
        assert(s@ =~= "/* GPIO */"@ + gpio_decls(gpios@.take(i + 1)));
    }
    assert(gpios@.take(gpios@.len() as int) =~= gpios@);
    Some(s)
}

/// The init function of one pin.
fn impl_fn(g: &Gpio) -> (r: String)
    ensures
        r@ == gpio_impl(*g),
{
    let name = init_name(g);
    let mut s = owned("void ");
    push_str(&mut s, name.as_str());
    push_str(&mut s, "(void) {\n");
    push_str(&mut s, "    /* Pin ");
    push_dec(&mut s, g.pin as u64);
    push_str(&mut s, ": ");
    push_str(&mut s, g.label.as_str());
    push_str(&mut s, " (");
    push_str(&mut s, g.mode.describe());
    match g.interrupt {
        Some(edge) => {
            push_str(&mut s, ", interrupt on ");
            push_str(&mut s, edge.describe());
        },
        None => {},
    }
    push_str(&mut s, ") */\n");
    push_str(&mut s, "    GPIO_SET_MODE(");
    push_dec(&mut s, g.pin as u64);
    push_str(&mut s, ", ");
    push_str(&mut s, g.mode.as_c_macro());
    push_str(&mut s, ");\n");
    match g.interrupt {
        Some(edge) => {
            push_str(&mut s, "    GPIO_ATTACH_INTERRUPT(");
            push_dec(&mut s, g.pin as u64);
            push_str(&mut s, ", ");
            push_str(&mut s, edge.as_c_macro());
            push_str(&mut s, ", ");
            let isr = isr_name(g);
            push_str(&mut s, isr.as_str());
            push_str(&mut s, ");\n");
        },
        None => {},
    }
    push_str(&mut s, "}");
    assert(s@ =~= gpio_impl(*g));
    s
}

/// One init function per pin for `init.c`.
pub fn impl_fns(gpios: &[Gpio]) -> (r: Vec<String>)
    ensures
        r@.len() == gpios@.len(),
        forall|i: int| 0 <= i < gpios@.len() ==> (#[trigger] r@[i])@ == gpio_impl(gpios@[i]),
{
    let mut out: Vec<String> = Vec::new();
    for i in 0..gpios.len()
        invariant
            out@.len() == i,
            forall|k: int| 0 <= k < i ==> (#[trigger] out@[k])@ == gpio_impl(gpios@[k]),
    {
        out.push(impl_fn(&gpios[i]));
    }
    out
}

/// Declaration block of GPIO ISRs for `handlers.h`. Only interrupt-enabled
/// pins contribute; `None` when none do.
pub fn handler_decl_section(gpios: &[Gpio]) -> (r: Option<String>)
    ensures
        crate::text::opt_str(r) == gpio_handler_decl_section(gpios@),
{
    let mut s = owned("/* GPIO interrupt handlers */");
    let mut found = false;
    for i in 0..gpios.len()
        invariant
            s@ == "/* GPIO interrupt handlers */"@ + gpio_handler_decls(gpios@.take(i as int)),
            found == any_interrupt(gpios@.take(i as int)),
    {
        assert(gpios@.take(i + 1).drop_last() =~= gpios@.take(i as int));
        assert(gpios@.take(i + 1)[i as int] == gpios@[i as int]);
        if gpios[i].interrupt.is_some() {
            push_str(&mut s, "\nvoid ");
            let isr = isr_name(&gpios[i]);
            push_str(&mut s, isr.as_str());
            push_str(&mut s, "(void);");
            found = true;
        } else {
            assert(any_interrupt(gpios@.take(i + 1)) ==> any_interrupt(gpios@.take(i as int))) by {
                if any_interrupt(gpios@.take(i + 1)) {
                    let k = choose|k: int| 0 <= k < i + 1 && (#[trigger] gpios@.take(i + 1)[k]).interrupt is Some;
                    assert(gpios@.take(i as int)[k] == gpios@.take(i + 1)[k]);
                }
            }
        }
        assert(s@ =~= "/* GPIO interrupt handlers */"@ + gpio_handler_decls(gpios@.take(i + 1)));
    }
    assert(gpios@.take(gpios@.len() as int) =~= gpios@);
    if found {
        Some(s)
    } else {
        None
    }
}

/// ISR stub definitions for `handlers.c`, one per interrupt-enabled pin.
pub fn handler_impl_fns(gpios: &[Gpio]) -> (r: Vec<String>)
    ensures
        r@.map_values(|f: String| f@) == gpio_handlers(gpios@),
{
    let mut out: Vec<String> = Vec::new();
    for i in 0..gpios.len()
        invariant
            out@.map_values(|f: String| f@) == gpio_handlers(gpios@.take(i as int)),
    {
        assert(gpios@.take(i + 1).drop_last() =~= gpios@.take(i as int));
        let g = &gpios[i];
        match g.interrupt {
            Some(edge) => {
                let isr = isr_name(g);
                let mut s = owned("void ");
                push_str(&mut s, isr.as_str());
                push_str(&mut s, "(void) {\n    /* TODO: Handle ");
                push_str(&mut s, edge.describe());
                push_str(&mut s, " on pin ");
                push_dec(&mut s, g.pin as u64);
                push_str(&mut s, " (");
                push_str(&mut s, g.label.as_str());
                push_str(&mut s, ") */\n}");
                assert(s@ =~= gpio_handler(*g));
                let ghost before = out@;
                out.push(s);
                assert(out@.map_values(|f: String| f@) =~= before.map_values(|f: String| f@).push(s@));
            },
            None => {},
        }
    }
    assert(gpios@.take(gpios@.len() as int) =~= gpios@);
    out
}

} // verus!
