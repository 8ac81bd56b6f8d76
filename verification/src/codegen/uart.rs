//! UART code generation: per peripheral, an init that wires up an RX interrupt,
//! a blocking send, and an RX ISR stub.

use vstd::prelude::*;
use crate::model::Uart;
use crate::text::{dec, owned, push_str, push_dec};

verus! {

/// `uart_<label>_rx_isr`.
pub open spec fn uart_isr_name(u: Uart) -> Seq<char> {
    "uart_"@ + u.label@ + "_rx_isr"@
}

/// The declaration lines of the UARTs, each after a newline.
pub open spec fn uart_decls(us: Seq<Uart>) -> Seq<char>
    decreases us.len(),
{
    if us.len() == 0 {
        Seq::empty()
    } else {
        uart_decls(us.drop_last()) + "\nvoid uart_"@ + us.last().label@ + "_init(void);"@ + "\nvoid uart_"@
            + us.last().label@ + "_send(const uint8_t *data, uint16_t len);"@
    }
}

/// The `init.h` block for UARTs, absent when there are none.
pub open spec fn uart_decl_section(us: Seq<Uart>) -> Option<Seq<char>> {
    if us.len() == 0 {
        None
    } else {
        Some("/* UART */"@ + uart_decls(us))
    }
}

/// A UART's init function.
pub open spec fn uart_init_fn(u: Uart) -> Seq<char> {
    "void uart_"@ + u.label@ + "_init(void) {\n    "@ + "/* UART "@ + dec(u.index as nat) + ": TX="@ + dec(
        u.tx_pin as nat,
    ) + ", RX="@ + dec(u.rx_pin as nat) + ", "@ + dec(u.baud as nat) + " baud */\n    "@ + "UART_INIT("@
        + dec(u.index as nat) + ", "@ + dec(u.tx_pin as nat) + ", "@ + dec(u.rx_pin as nat) + ", "@ + dec(
        u.baud as nat,
    ) + ");\n    "@ + "UART_ATTACH_RX_INTERRUPT("@ + dec(u.index as nat) + ", "@ + uart_isr_name(u) + ");\n}"@
}

/// A UART's send function.
pub open spec fn uart_send_fn(u: Uart) -> Seq<char> {
    "void uart_"@ + u.label@ + "_send(const uint8_t *data, uint16_t len) {\n    "@ + "/* Send `len` bytes over UART "@
        + dec(u.index as nat) + " */\n    "@ + "UART_SEND("@ + dec(u.index as nat) + ", data, len);\n}"@
}

/// The init and send functions of all UARTs, UART by UART.
pub open spec fn uart_fns(us: Seq<Uart>) -> Seq<Seq<char>>
    decreases us.len(),
{
    if us.len() == 0 {
        Seq::empty()
    } else {
        uart_fns(us.drop_last()).push(uart_init_fn(us.last())).push(uart_send_fn(us.last()))
    }
}

/// The declarations of the UARTs' RX ISRs, each after a newline.
pub open spec fn uart_handler_decls(us: Seq<Uart>) -> Seq<char>
    decreases us.len(),
{
    if us.len() == 0 {
        Seq::empty()
    } else {
        uart_handler_decls(us.drop_last()) + "\nvoid "@ + uart_isr_name(us.last()) + "(void);"@
    }
}

/// The `handlers.h` block for UART ISRs, absent when there are no UARTs.
pub open spec fn uart_handler_decl_section(us: Seq<Uart>) -> Option<Seq<char>> {
    if us.len() == 0 {
        None
    } else {
        Some("/* UART RX handlers */"@ + uart_handler_decls(us))
    }
}

/// A UART's RX ISR stub.
pub open spec fn uart_handler(u: Uart) -> Seq<char> {
    "void "@ + uart_isr_name(u) + "(void) {\n    /* TODO: Handle incoming data on UART "@ + dec(u.index as nat)
        + " ("@ + u.label@ + ") */\n}"@
}

/// The C name of the RX ISR generated for a UART.
fn rx_isr_name(u: &Uart) -> (r: String)
    ensures
        r@ == uart_isr_name(*u),
{
    let mut s = owned("uart_");
    push_str(&mut s, u.label.as_str());
    push_str(&mut s, "_rx_isr");
    s
}

/// Declaration block for `init.h`. `None` when there are no UARTs.
pub fn decl_section(uarts: &[Uart]) -> (r: Option<String>)
    ensures
        crate::text::opt_str(r) == uart_decl_section(uarts@),
{
    if uarts.len() == 0 {
        return None;
    }
    let mut s = owned("/* UART */");
    for i in 0..uarts.len()
        invariant
            s@ == "/* UART */"@ + uart_decls(uarts@.take(i as int)),
    {
        assert(uarts@.take(i + 1).drop_last() =~= uarts@.take(i as int));
        push_str(&mut s, "\nvoid uart_");
        push_str(&mut s, uarts[i].label.as_str());
        push_str(&mut s, "_init(void);");
        push_str(&mut s, "\nvoid uart_");
        push_str(&mut s, uarts[i].label.as_str());
        push_str(&mut s, "_send(const uint8_t *data, uint16_t len);");
        assert(s@ =~= "/* UART */"@ + uart_decls(uarts@.take(i + 1)));
    }
    assert(uarts@.take(uarts@.len() as int) =~= uarts@);
    Some(s)
}

/// A UART's init function.
fn init_fn(u: &Uart) -> (r: String)
    ensures
        r@ == uart_init_fn(*u),
{
    let mut s = owned("void uart_");
    push_str(&mut s, u.label.as_str());
    push_str(&mut s, "_init(void) {\n    ");
    push_str(&mut s, "/* UART ");
    push_dec(&mut s, u.index as u64);
    push_str(&mut s, ": TX=");
    push_dec(&mut s, u.tx_pin as u64);
    push_str(&mut s, ", RX=");
    push_dec(&mut s, u.rx_pin as u64);
    push_str(&mut s, ", ");
    push_dec(&mut s, u.baud as u64);
    push_str(&mut s, " baud */\n    ");
    push_str(&mut s, "UART_INIT(");
    push_dec(&mut s, u.index as u64);
    push_str(&mut s, ", ");
    push_dec(&mut s, u.tx_pin as u64);
    push_str(&mut s, ", ");
    push_dec(&mut s, u.rx_pin as u64);
    push_str(&mut s, ", ");
    push_dec(&mut s, u.baud as u64);
    push_str(&mut s, ");\n    ");
    push_str(&mut s, "UART_ATTACH_RX_INTERRUPT(");
    push_dec(&mut s, u.index as u64);
    push_str(&mut s, ", ");
    let isr = rx_isr_name(u);
    push_str(&mut s, isr.as_str());
    push_str(&mut s, ");\n}");
    assert(s@ =~= uart_init_fn(*u));
    s
}

/// A UART's send function.
fn send_fn(u: &Uart) -> (r: String)
    ensures
        r@ == uart_send_fn(*u),
{
    let mut s = owned("void uart_");
    push_str(&mut s, u.label.as_str());
    push_str(&mut s, "_send(const uint8_t *data, uint16_t len) {\n    ");
    push_str(&mut s, "/* Send `len` bytes over UART ");
    push_dec(&mut s, u.index as u64);
    push_str(&mut s, " */\n    ");
    push_str(&mut s, "UART_SEND(");
    push_dec(&mut s, u.index as u64);
    push_str(&mut s, ", data, len);\n}");
    assert(s@ =~= uart_send_fn(*u));
    s
}

/// Implementation functions for `init.c`: init and send per UART.
pub fn impl_fns(uarts: &[Uart]) -> (r: Vec<String>)
    ensures
        r@.map_values(|f: String| f@) == uart_fns(uarts@),
{
    let mut fns: Vec<String> = Vec::new();
    for i in 0..uarts.len()
        invariant
            fns@.map_values(|f: String| f@) == uart_fns(uarts@.take(i as int)),
    {
        assert(uarts@.take(i + 1).drop_last() =~= uarts@.take(i as int));
        let ghost prev = fns@.map_values(|f: String| f@);
        fns.push(init_fn(&uarts[i]));
        fns.push(send_fn(&uarts[i]));
        assert(fns@.map_values(|f: String| f@) =~= prev.push(uart_init_fn(uarts@[i as int])).push(
            uart_send_fn(uarts@[i as int]),
        ));
    }
    assert(uarts@.take(uarts@.len() as int) =~= uarts@);
    fns
}

/// RX ISR declaration block for `handlers.h`. `None` when there are no UARTs.
pub fn handler_decl_section(uarts: &[Uart]) -> (r: Option<String>)
    ensures
        crate::text::opt_str(r) == uart_handler_decl_section(uarts@),
{
    if uarts.len() == 0 {
        return None;
    }
    let mut s = owned("/* UART RX handlers */");
    for i in 0..uarts.len()
        invariant
            s@ == "/* UART RX handlers */"@ + uart_handler_decls(uarts@.take(i as int)),
    {
        assert(uarts@.take(i + 1).drop_last() =~= uarts@.take(i as int));
        push_str(&mut s, "\nvoid ");
        let isr = rx_isr_name(&uarts[i]);
        push_str(&mut s, isr.as_str());
        push_str(&mut s, "(void);");
        assert(s@ =~= "/* UART RX handlers */"@ + uart_handler_decls(uarts@.take(i + 1)));
    }
    assert(uarts@.take(uarts@.len() as int) =~= uarts@);
    Some(s)
}

/// RX ISR stub definitions for `handlers.c`, one per UART.
pub fn handler_impl_fns(uarts: &[Uart]) -> (r: Vec<String>)
    ensures
        r@.len() == uarts@.len(),
        forall|i: int| 0 <= i < uarts@.len() ==> (#[trigger] r@[i])@ == uart_handler(uarts@[i]),
{
    let mut out: Vec<String> = Vec::new();
    for i in 0..uarts.len()
        invariant
            out@.len() == i,
            forall|k: int| 0 <= k < i ==> (#[trigger] out@[k])@ == uart_handler(uarts@[k]),
    {
        let u = &uarts[i];
        let isr = rx_isr_name(u);
        let mut s = owned("void ");
        push_str(&mut s, isr.as_str());
        push_str(&mut s, "(void) {\n    /* TODO: Handle incoming data on UART ");
        push_dec(&mut s, u.index as u64);
        push_str(&mut s, " (");
        push_str(&mut s, u.label.as_str());
        push_str(&mut s, ") */\n}");
        assert(s@ =~= uart_handler(*u));
        out.push(s);
    }
    out
}

} // verus!
