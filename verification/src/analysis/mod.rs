//! Static analysis: non-fatal checks over the validated board.
//!
//! Analysis never blocks code generation. The checks return warnings, and
//! [`summary::render`] gives a one-screen resource overview.

pub mod bus_utilization;
pub mod clock;
pub mod interrupts;
pub mod report;
pub mod summary;

use vstd::prelude::*;
use crate::model::Board;
use bus_utilization::utilization_warnings;
use clock::clock_warnings;
use interrupts::density_warnings;

verus! {

/// Every analysis warning for a board: bus utilization, then SPI clocks,
/// then interrupt density.
pub open spec fn analysis_warnings(board: Board) -> Seq<Seq<char>> {
    utilization_warnings(board.i2c_buses@) + clock_warnings(board.spi_buses@, board.clock_mhz as nat)
        + density_warnings(board)
}

/// Run every analysis check, returning all warnings in a stable order.
pub fn analyze(board: &Board) -> (r: Vec<String>)
    ensures
        r@.map_values(|w: String| w@) == analysis_warnings(*board),
{
    let mut warnings = bus_utilization::check(board.i2c_buses.as_slice());
    let mut clocks = clock::check(board);
    let mut density = interrupts::check(board);
    let ghost a = warnings@;
    let ghost b = clocks@;
    let ghost c = density@;
    warnings.append(&mut clocks);
    warnings.append(&mut density);
    assert(warnings@ =~= a + b + c);
    assert(warnings@.map_values(|w: String| w@) =~= a.map_values(|w: String| w@) + b.map_values(
        |w: String| w@,
    ) + c.map_values(|w: String| w@));
    warnings
}

} // verus!
