//! The generic-C backend: five files of portable C scaffolding, rendered by
//! [`crate::codegen`].

use vstd::prelude::*;
use super::{Backend, GeneratedFile, InitPlan};
use crate::codegen;
use crate::codegen::{
    clocks_fit, handlers_header_text, handlers_source_text, init_header_text, init_source_text,
};
use crate::codegen::main_gen::main_text;
use crate::graph::topo::layer_views;
use crate::model::Board;

verus! {

/// Emits `init.{h,c}`, `handlers.{h,c}`, and `main.c`.
pub struct CBackend;

/// The path and text of each file the C backend emits, in order.
pub open spec fn c_files(board: Board, layers: Seq<Vec<String>>) -> Seq<(Seq<char>, Seq<char>)> {
    seq![
        ("init.h"@, init_header_text(board)),
        ("init.c"@, init_source_text(board, layer_views(layers))),
        ("handlers.h"@, handlers_header_text(board)),
        ("handlers.c"@, handlers_source_text(board)),
        ("main.c"@, main_text()),
    ]
}

/// The path and text of each generated file.
pub open spec fn file_views(fs: Seq<GeneratedFile>) -> Seq<(Seq<char>, Seq<char>)> {
    fs.map_values(|f: GeneratedFile| (f.path@, f.contents@))
}

impl Backend for CBackend {
    fn id(&self) -> (r: &'static str)
        ensures
            r@ == "c"@,
    {
        "c"
    }

    fn description(&self) -> (r: &'static str)
        ensures
            r@ == "Portable C scaffolding with placeholder HAL macros"@,
    {
        "Portable C scaffolding with placeholder HAL macros"
    }

    fn render(&self, board: &Board, plan: &InitPlan) -> (r: Vec<GeneratedFile>)
        ensures
            file_views(r@) == c_files(*board, plan.layers@),
    {
        let mut files: Vec<GeneratedFile> = Vec::new();
        files.push(GeneratedFile::new("init.h", codegen::render_init_header(board)));
        files.push(GeneratedFile::new("init.c", codegen::render_init_source(board, plan.layers.as_slice())));
        files.push(GeneratedFile::new("handlers.h", codegen::render_handlers_header(board)));
        files.push(GeneratedFile::new("handlers.c", codegen::render_handlers_source(board)));
        files.push(GeneratedFile::new("main.c", codegen::render_main(board)));
        assert(file_views(files@) =~= c_files(*board, plan.layers@));
        files
    }
}

} // verus!
