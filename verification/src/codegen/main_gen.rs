//! The `main.c` skeleton.

use vstd::prelude::*;
use crate::model::Board;
use crate::text::owned;

verus! {

/// The text of `main.c`, the same for every board.
pub open spec fn main_text() -> Seq<char> {
    "#include \"init.h\"\n#include \"handlers.h\"\n\nint main(void) {\n    board_init();\n\n    while (1) {\n        /* TODO: Main loop */\n    }\n\n    return 0;\n}\n"@
}

/// Render `main.c`. The skeleton is the same for every board; it calls
/// `board_init()` once and then spins in an empty main loop.
///
/// `_board` is accepted for symmetry with the other generators (and to allow
/// future board-specific scaffolding) but is currently unused.
pub fn render(_board: &Board) -> (r: String)
    ensures
        r@ == main_text(),
{
    owned("#include \"init.h\"\n#include \"handlers.h\"\n\nint main(void) {\n    board_init();\n\n    while (1) {\n        /* TODO: Main loop */\n    }\n\n    return 0;\n}\n")
}

} // verus!
