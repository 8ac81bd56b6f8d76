//! Backends: consume the validated [`Board`] and emit target artifacts.
//!
//! Every backend implements [`Backend`] and returns a list of in-memory
//! [`GeneratedFile`]s; writing them to disk is left to the caller.

pub mod c;
pub mod zephyr;

use vstd::prelude::*;
use crate::codegen::clocks_fit;
use crate::model::Board;
use crate::text::{chars_of, collect, join, owned, push_str, str_eq, trim, trim_chars};

verus! {

/// The dependency-resolved initialization order handed to a backend.
#[derive(Debug, Clone)]
pub struct InitPlan {
    /// Nodes grouped into layers by dependency depth (layer 0 has no deps).
    pub layers: Vec<Vec<String>>,
}

/// A file a backend wants written, with a path relative to the output dir.
#[derive(Debug, Clone)]
pub struct GeneratedFile {
    /// Path relative to the output directory (may contain subdirectories).
    pub path: String,
    /// File contents.
    pub contents: String,
}

impl GeneratedFile {
    /// Convenience constructor.
    pub fn new(path: &str, contents: String) -> (r: Self)
        ensures
            r.path@ == path@,
            r.contents@ == contents@,
    {
        GeneratedFile { path: owned(path), contents }
    }
}

/// A code-generation target.
pub trait Backend {
    /// Stable identifier used on the command line (e.g. `"c"`).
    fn id(&self) -> &'static str;

    /// A one-line human description of what this backend emits.
    fn description(&self) -> &'static str;

    /// Render the board into a set of output files. Pure: no I/O.
    fn render(&self, board: &Board, plan: &InitPlan) -> Vec<GeneratedFile>
        requires
            clocks_fit(*board),
    ;
}

/// Every backend id Forge knows about.
pub const BACKEND_IDS: [&'static str; 2] = ["c", "zephyr"];

/// One of the backends Forge knows about.
pub enum KnownBackend {
    /// The generic-C backend.
    C(c::CBackend),
    /// The Zephyr backend.
    Zephyr(zephyr::ZephyrBackend),
}

/// The id of a known backend.
pub open spec fn backend_id(b: KnownBackend) -> Seq<char> {
    match b {
        KnownBackend::C(_) => "c"@,
        KnownBackend::Zephyr(_) => "zephyr"@,
    }
}

impl Backend for KnownBackend {
    fn id(&self) -> (r: &'static str)
        ensures
            r@ == backend_id(*self),
    {
        match self {
            KnownBackend::C(b) => b.id(),
            KnownBackend::Zephyr(b) => b.id(),
        }
    }

    fn description(&self) -> (r: &'static str)
        ensures
            self matches KnownBackend::C(_) ==> r@ == "Portable C scaffolding with placeholder HAL macros"@,
            self matches KnownBackend::Zephyr(_) ==> r@ == "Zephyr RTOS devicetree overlay and prj.conf"@,
    {
        match self {
            KnownBackend::C(b) => b.description(),
            KnownBackend::Zephyr(b) => b.description(),
        }
    }

    fn render(&self, board: &Board, plan: &InitPlan) -> (r: Vec<GeneratedFile>)
        ensures
            self matches KnownBackend::C(_) ==> c::file_views(r@) == c::c_files(*board, plan.layers@),
            self matches KnownBackend::Zephyr(_) ==> c::file_views(r@) == zephyr::zephyr_files(*board),
    {
        match self {
            KnownBackend::C(b) => b.render(board, plan),
            KnownBackend::Zephyr(b) => b.render(board, plan),
        }
    }
}

/// Resolve a backend by its id.
pub fn by_id(id: &str) -> (r: Option<KnownBackend>)
    ensures
        r is Some <==> backend_ids().contains(id@),
        r matches Some(b) ==> backend_id(b) == id@,
{
    proof {
        reveal_strlit("c");
        reveal_strlit("zephyr");
        assert(backend_ids()[0] == "c"@);
        assert(backend_ids()[1] == "zephyr"@);
    }
    if str_eq(id, "c") {
        Some(KnownBackend::C(c::CBackend))
    } else if str_eq(id, "zephyr") {
        Some(KnownBackend::Zephyr(zephyr::ZephyrBackend))
    } else {
        None
    }
}

/// The backend ids, by their characters.
pub open spec fn backend_ids() -> Seq<Seq<char>> {
    seq!["c"@, "zephyr"@]
}

/// The pieces of `s` between commas (as `str::split(',')` gives them).
pub open spec fn split_commas(s: Seq<char>) -> Seq<Seq<char>>
    decreases s.len(),
{
    if s.len() == 0 {
        seq![Seq::empty()]
    } else {
        let p = split_commas(s.drop_last());
        if s.last() == ',' {
            p.push(Seq::empty())
        } else {
            p.update(p.len() - 1, p.last().push(s.last()))
        }
    }
}

/// Splitting always gives at least one piece.
pub proof fn lemma_split_commas_len(s: Seq<char>)
    ensures
        split_commas(s).len() >= 1,
    decreases s.len(),
{
    if s.len() > 0 {
        lemma_split_commas_len(s.drop_last());
    }
}

/// The first id that names no backend.
pub open spec fn first_unknown(ids: Seq<Seq<char>>) -> Option<Seq<char>>
    decreases ids.len(),
{
    if ids.len() == 0 {
        None
    } else if !backend_ids().contains(ids[0]) {
        Some(ids[0])
    } else {
        first_unknown(ids.drop_first())
    }
}

/// The error for an unknown backend id.
pub open spec fn unknown_backend_msg(id: Seq<char>) -> Seq<char> {
    "unknown backend '"@ + id + "' (choose from: "@ + join(backend_ids(), ", "@) + ", or 'all')"@
}

/// What a `--backend` argument selects: every backend for `all`, else the
/// comma-separated ids, trimmed, when each names a backend.
pub open spec fn backend_choice(arg: Seq<char>) -> Result<Seq<Seq<char>>, Seq<char>> {
    if arg == "all"@ {
        Ok(backend_ids())
    } else {
        let ids = split_commas(arg).map_values(|p: Seq<char>| trim(p));
        match first_unknown(ids) {
            Some(id) => Err(unknown_backend_msg(id)),
            None => Ok(ids),
        }
    }
}

/// The trimmed comma-separated pieces of `arg`.
fn split_ids(arg: &str) -> (r: Vec<String>)
    ensures
        r@.map_values(|p: String| p@) == split_commas(arg@).map_values(|p: Seq<char>| trim(p)),
{
    let cs = chars_of(arg);
    let mut done: Vec<String> = Vec::new();
    let mut cur: Vec<char> = Vec::new();
    for i in 0..cs.len()
        invariant
            cs@ == arg@,
            split_commas(cs@.take(i as int)).len() >= 1,
            done@.map_values(|p: String| p@) == split_commas(cs@.take(i as int)).drop_last().map_values(
                |p: Seq<char>| trim(p),
            ),
            cur@ == split_commas(cs@.take(i as int)).last(),
    {
        proof {
            assert(cs@.take(i + 1).drop_last() =~= cs@.take(i as int));
            lemma_split_commas_len(cs@.take(i as int));
        }
        let ghost p = split_commas(cs@.take(i as int));
        if cs[i] == ',' {
            let piece = collect(&trim_chars(&cur));
            let ghost before = done@;
            done.push(piece);
            cur = Vec::new();
            assert(split_commas(cs@.take(i + 1)) =~= p.push(Seq::empty()));
            assert(p.push(Seq::<char>::empty()).drop_last() =~= p);
            assert(p =~= p.drop_last().push(p.last()));
            assert(done@.map_values(|q: String| q@) =~= before.map_values(|q: String| q@).push(trim(p.last())));
            assert(p.map_values(|q: Seq<char>| trim(q)) =~= p.drop_last().map_values(|q: Seq<char>| trim(q)).push(
                trim(p.last()),
            ));
            assert(cur@ =~= Seq::<char>::empty());
        } else {
            cur.push(cs[i]);
            assert(split_commas(cs@.take(i + 1)) =~= p.update(p.len() - 1, p.last().push(cs@[i as int])));
            assert(p.update(p.len() - 1, p.last().push(cs@[i as int])).drop_last() =~= p.drop_last());
        }
    }
    proof {
        assert(cs@.take(cs@.len() as int) =~= cs@);
        lemma_split_commas_len(cs@);
    }
    let ghost p = split_commas(cs@);
    let ghost before = done@;
    done.push(collect(&trim_chars(&cur)));
    assert(p =~= p.drop_last().push(p.last()));
    assert(p.map_values(|q: Seq<char>| trim(q)) =~= p.drop_last().map_values(|q: Seq<char>| trim(q)).push(
        trim(p.last()),
    ));
    assert(done@.map_values(|q: String| q@) =~= before.map_values(|q: String| q@).push(trim(p.last())));
    done
}

/// Expand a `--backend` argument into validated backend ids: `all` selects
/// every backend; otherwise a comma-separated list, each id trimmed and
/// checked. The error names the first unknown id.
pub fn resolve_backends(arg: &str) -> (r: Result<Vec<String>, String>)
    ensures
        match backend_choice(arg@) {
            Ok(ids) => r matches Ok(v) && v@.map_values(|p: String| p@) == ids,
            Err(m) => r matches Err(e) && e@ == m,
        },
{
    if str_eq(arg, "all") {
        let mut v: Vec<String> = Vec::new();
        v.push(owned("c"));
        v.push(owned("zephyr"));
        assert(v@.map_values(|p: String| p@) =~= backend_ids());
        return Ok(v);
    }
    let ids = split_ids(arg);
    let ghost views = ids@.map_values(|p: String| p@);
    assert(views.skip(0) =~= views);
    let mut i: usize = 0;
    while i < ids.len()
        invariant
            i <= ids@.len(),
            arg@ != "all"@,
            views == split_commas(arg@).map_values(|p: Seq<char>| trim(p)),
            views == ids@.map_values(|p: String| p@),
            first_unknown(views) == first_unknown(views.skip(i as int)),
        decreases ids@.len() - i,
    {
        assert(views.skip(i as int).drop_first() =~= views.skip(i + 1));
        assert(views.skip(i as int)[0] == ids@[i as int]@);
        if by_id(ids[i].as_str()).is_none() {
            proof {
                assert(!backend_ids().contains(ids@[i as int]@));
            }
            let mut m = owned("unknown backend '");
            push_str(&mut m, ids[i].as_str());
            push_str(&mut m, "' (choose from: ");
            push_str(&mut m, "c");
            push_str(&mut m, ", ");
            push_str(&mut m, "zephyr");
            push_str(&mut m, ", or 'all')");
            proof {
                assert(backend_ids().drop_last() =~= seq!["c"@]);
                assert(join(backend_ids().drop_last(), ", "@) == "c"@);
                assert(join(backend_ids(), ", "@) == "c"@ + ", "@ + "zephyr"@);
                assert(m@ =~= unknown_backend_msg(ids@[i as int]@));
                assert(first_unknown(views) == Some(ids@[i as int]@));
            }
            return Err(m);
        }
        proof {
            assert(backend_ids().contains(ids@[i as int]@));
        }
        i = i + 1;
    }
    assert(views.skip(ids@.len() as int) =~= Seq::<Seq<char>>::empty());
    Ok(ids)
}

/// Every id that a `--backend` argument selects names a backend.
pub proof fn lemma_chosen_backends_exist(arg: Seq<char>, i: int)
    requires
        backend_choice(arg) is Ok,
        0 <= i < backend_choice(arg)->Ok_0.len(),
    ensures
        backend_ids().contains(backend_choice(arg)->Ok_0[i]),
{
    if arg == "all"@ {
        assert(backend_ids()[i] == backend_choice(arg)->Ok_0[i]);
    } else {
        let ids = split_commas(arg).map_values(|p: Seq<char>| trim(p));
        lemma_known_when_none_unknown(ids, i);
    }
}

/// When no id is unknown, each id names a backend.
proof fn lemma_known_when_none_unknown(ids: Seq<Seq<char>>, i: int)
    requires
        first_unknown(ids) is None,
        0 <= i < ids.len(),
    ensures
        backend_ids().contains(ids[i]),
    decreases ids.len(),
{
    if i > 0 {
        assert(ids.drop_first()[i - 1] == ids[i]);
        lemma_known_when_none_unknown(ids.drop_first(), i - 1);
    }
}

} // verus!
