//! The AI frontend: a language model's reply becomes a verified config.
//!
//! The model only ever proposes a candidate `board.toml`. That candidate is run
//! through the exact same deterministic gate as any other config (reading
//! the TOML, [`crate::config::validate`], [`crate::graph::build`], and the
//! [`crate::lint`] review), so the language model can never smuggle an
//! invalid design past Forge. The model proposes; the deterministic core
//! disposes.

pub mod prompt;
pub mod provider;

pub use provider::MockProvider;

use vstd::prelude::*;
use crate::config::{validate, RawConfig};
use crate::config::validate::{board_from, findings};
use crate::error::{messages, ValidationError};
use crate::graph;
use crate::graph::builder::{board_cycle, board_edges, board_link_errors, cycle_message, edge_cycle, edges_acyclic};
use crate::lint::{self, findings_of, review_findings, Diagnostic};
use crate::model::Board;
use crate::text::{back_space, chars_of, collect, owned, push_str, skip_space, slice, trim, trim_chars};

verus! {

/// What the user asked the AI to build.
#[derive(Debug, Clone)]
pub struct AiRequest {
    /// Natural-language description of the board.
    pub intent: String,
    /// Optional datasheet text to ground the model.
    pub datasheet: Option<String>,
}

/// The result of verifying a candidate config.
#[derive(Debug, Clone)]
pub struct AiOutcome {
    /// The TOML the model proposed (post fence-stripping).
    pub candidate_toml: String,
    /// The validated board, if it passed every gate.
    pub board: Option<Board>,
    /// Hard errors (TOML / validation / graph) that rejected the candidate.
    pub errors: Vec<ValidationError>,
    /// Advisory lint diagnostics (only when the candidate is valid).
    pub diagnostics: Vec<Diagnostic>,
}

impl AiOutcome {
    /// True if the candidate passed every hard gate.
    pub fn is_valid(&self) -> (r: bool)
        ensures
            r == self.board is Some,
    {
        self.board.is_some()
    }
}

/// The dependency graph of a board builds: every link resolves and there is
/// no cycle.
pub open spec fn builds(board: &Board) -> bool {
    board_link_errors(board).len() == 0 && edges_acyclic(board_edges(board))
}

/// `es` is what [`graph::build`] reports for a board whose graph does not
/// build: every link error, or else the cycle its search meets first.
pub open spec fn build_rejection(board: &Board, es: Seq<ValidationError>) -> bool {
    ||| (board_link_errors(board).len() > 0 && messages(es) == board_link_errors(board))
    ||| (board_link_errors(board).len() == 0 && es.len() == 1 && (board_cycle(board) matches Some(p) && edge_cycle(
        board_edges(board),
        p,
    ) && es[0].message@ == cycle_message(p)))
}

/// The error for a reply that is not TOML of the expected shape.
pub open spec fn toml_error_msg(e: Seq<char>) -> Seq<char> {
    "the model did not produce valid TOML: "@ + e
}

/// The outcome `r` answers the text `candidate` correctly, given `parsed`:
/// the document that the text holds, or why it holds none.
pub open spec fn gate_verdict(candidate: Seq<char>, parsed: Result<RawConfig, Seq<char>>, r: AiOutcome) -> bool {
    &&& r.candidate_toml@ == candidate
    &&& match parsed {
        Err(e) => {
            &&& r.board is None
            &&& messages(r.errors@) == seq![toml_error_msg(e)]
            &&& r.diagnostics@.len() == 0
        },
        Ok(raw) => if findings(raw).errors.len() > 0 {
            &&& r.board is None
            &&& messages(r.errors@) == findings(raw).errors
            &&& r.diagnostics@.len() == 0
        } else {
            match r.board {
                Some(b) => {
                    &&& board_from(b, raw)
                    &&& builds(&b)
                    &&& r.errors@.len() == 0
                    &&& findings_of(r.diagnostics@) == review_findings(b)
                },
                None => {
                    &&& exists|b: Board| board_from(b, raw) && !builds(&b) && build_rejection(&b, r.errors@)
                    &&& r.diagnostics@.len() == 0
                },
            }
        },
    }
}

/// Run a candidate through validate, graph and lint. `parsed` is the candidate
/// read as a `board.toml` document, or the reader's error message.
pub fn verify(candidate: String, parsed: Result<RawConfig, String>) -> (r: AiOutcome)
    ensures
        gate_verdict(
            candidate@,
            match parsed {
                Ok(raw) => Ok(raw),
                Err(e) => Err(e@),
            },
            r,
        ),
{
    let raw = match parsed {
        Ok(raw) => raw,
        Err(e) => {
            let mut m = owned("the model did not produce valid TOML: ");
            push_str(&mut m, e.as_str());
            let err = ValidationError::from_string(m);
            let mut errors: Vec<ValidationError> = Vec::new();
            errors.push(err);
            assert(messages(errors@) =~= seq![toml_error_msg(e@)]);
            return AiOutcome { candidate_toml: candidate, board: None, errors, diagnostics: Vec::new() };
        },
    };
    let ghost doc = raw;
    let validated = match validate(raw) {
        Ok(v) => v,
        Err(errors) => {
            return AiOutcome { candidate_toml: candidate, board: None, errors, diagnostics: Vec::new() };
        },
    };
    match graph::build(&validated.board) {
        Err(errors) => {
            assert(board_from(validated.board, doc) && !builds(&validated.board) && build_rejection(
                &validated.board,
                errors@,
            ));
            return AiOutcome { candidate_toml: candidate, board: None, errors, diagnostics: Vec::new() };
        },
        Ok(_) => {},
    }
    let diagnostics = lint::review(&validated.board);
    AiOutcome { candidate_toml: candidate, board: Some(validated.board), errors: Vec::new(), diagnostics }
}

/// `pat` occurs in `s` at `i`.
pub open spec fn occurs_at(s: Seq<char>, pat: Seq<char>, i: int) -> bool {
    0 <= i && i + pat.len() <= s.len() && s.subrange(i, i + pat.len()) == pat
}

/// The first occurrence of `pat` in `s` at or after `i`.
pub open spec fn find_from(s: Seq<char>, pat: Seq<char>, i: int) -> Option<int>
    decreases s.len() + 1 - i,
{
    if i < 0 || i + pat.len() > s.len() {
        None
    } else if occurs_at(s, pat, i) {
        Some(i)
    } else {
        find_from(s, pat, i + 1)
    }
}

/// A found occurrence is an occurrence.
pub proof fn lemma_find_from(s: Seq<char>, pat: Seq<char>, i: int)
    ensures
        find_from(s, pat, i) matches Some(j) ==> occurs_at(s, pat, j),
    decreases s.len() + 1 - i,
{
    if !(i < 0 || i + pat.len() > s.len()) && !occurs_at(s, pat, i) {
        lemma_find_from(s, pat, i + 1);
    }
}

/// A Markdown code fence.
pub open spec fn fence() -> Seq<char> {
    seq!['`', '`', '`']
}

/// The TOML in a model reply: the trimmed reply, or, when it holds a code
/// fence, the trimmed text after the fence's first line up to the closing
/// fence (or the end).
pub open spec fn extracted(reply: Seq<char>) -> Seq<char> {
    let t = trim(reply);
    match find_from(t, fence(), 0) {
        None => t,
        Some(start) => {
            let after = t.subrange(start + 3, t.len() as int);
            let body_start = match find_from(after, seq!['\n'], 0) {
                Some(i) => i + 1,
                None => 0,
            };
            let body = after.subrange(body_start, after.len() as int);
            match find_from(body, fence(), 0) {
                Some(end) => trim(body.subrange(0, end)),
                None => trim(body),
            }
        },
    }
}

/// Whether `pat` occurs in `v` at `i`.
fn matches_at(v: &Vec<char>, pat: &Vec<char>, i: usize) -> (r: bool)
    requires
        i + pat@.len() <= v@.len(),
    ensures
        r == occurs_at(v@, pat@, i as int),
{
    let n = v.len();
    let mut k: usize = 0;
    while k < pat.len()
        invariant
            n == v@.len(),
            i + pat@.len() <= v@.len(),
            k <= pat@.len(),
            forall|m: int| 0 <= m < k ==> v@[i + m] == pat@[m],
        decreases pat@.len() - k,
    {
        if v[i + k] != pat[k] {
            assert(v@.subrange(i as int, i + pat@.len())[k as int] != pat@[k as int]);
            return false;
        }
        k = k + 1;
    }
    assert(v@.subrange(i as int, i + pat@.len()) =~= pat@);
    true
}

/// The first occurrence of `pat` in `v`.
fn find_chars(v: &Vec<char>, pat: &Vec<char>) -> (r: Option<usize>)
    ensures
        match r {
            Some(i) => find_from(v@, pat@, 0) == Some(i as int),
            None => find_from(v@, pat@, 0) is None,
        },
{
    if pat.len() > v.len() {
        return None;
    }
    if pat.len() == 0 {
        assert(v@.subrange(0, 0) =~= pat@);
        return Some(0);
    }
    let last = v.len() - pat.len();
    assert(v@.len() <= usize::MAX);
    let mut i: usize = 0;
    while i <= last
        invariant
            1 <= pat@.len() <= v@.len(),
            v@.len() <= usize::MAX,
            last == v@.len() - pat@.len(),
            i <= last + 1,
            find_from(v@, pat@, i as int) == find_from(v@, pat@, 0),
        decreases last + 1 - i,
    {
        if matches_at(v, pat, i) {
            return Some(i);
        }
        i = i + 1;
    }
    None
}

/// Pull the TOML out of a model reply, tolerating Markdown code fences.
pub fn extract_toml(reply: &str) -> (r: String)
    ensures
        r@ == extracted(reply@),
{
    let all = chars_of(reply);
    let t = trim_chars(&all);
    let tn = t.len();
    let mut fence_chars: Vec<char> = Vec::new();
    fence_chars.push('`');
    fence_chars.push('`');
    fence_chars.push('`');
    assert(fence_chars@ =~= fence());
    match find_chars(&t, &fence_chars) {
        None => collect(&t),
        Some(start) => {
            proof {
                lemma_find_from(t@, fence(), 0);
            }
            let after = slice(&t, start + 3, t.len());
            let mut newline: Vec<char> = Vec::new();
            newline.push('\n');
            assert(newline@ =~= seq!['\n']);
            let body_start = match find_chars(&after, &newline) {
                Some(i) => {
                    proof {
                        lemma_find_from(after@, seq!['\n'], 0);
                    }
                    i + 1
                },
                None => 0,
            };
            let body = slice(&after, body_start, after.len());
            match find_chars(&body, &fence_chars) {
                Some(end) => {
                    proof {
                lemma_find_from(body@, fence(), 0);
            }
            let inner = slice(&body, 0, end);
                    collect(&trim_chars(&inner))
                },
                None => collect(&trim_chars(&body)),
            }
        },
    }
}

/// No invalid design is accepted: an outcome that is valid comes from a
/// document that validated, whose board it holds, and whose dependency graph
/// builds; and it carries no error.
pub proof fn lemma_gate_sound(candidate: Seq<char>, parsed: Result<RawConfig, Seq<char>>, r: AiOutcome)
    requires
        gate_verdict(candidate, parsed, r),
        r.board is Some,
    ensures
        parsed is Ok,
        findings(parsed->Ok_0).errors.len() == 0,
        board_from(r.board->Some_0, parsed->Ok_0),
        builds(&r.board->Some_0),
        r.errors@.len() == 0,
{
}

/// A rejected candidate always says why: an outcome without a board carries
/// at least one error.
pub proof fn lemma_gate_explains(candidate: Seq<char>, parsed: Result<RawConfig, Seq<char>>, r: AiOutcome)
    requires
        gate_verdict(candidate, parsed, r),
        r.board is None,
    ensures
        r.errors@.len() > 0,
{
    match parsed {
        Err(e) => {
            assert(messages(r.errors@).len() == 1);
        },
        Ok(raw) => {
            if findings(raw).errors.len() > 0 {
                assert(messages(r.errors@).len() > 0);
            } else {
                let b = choose|b: Board| board_from(b, raw) && !builds(&b) && build_rejection(&b, r.errors@);
                if board_link_errors(&b).len() > 0 {
                    assert(messages(r.errors@).len() > 0);
                }
            }
        },
    }
}

/// No occurrence at or after `i` when the search from `i` finds none.
proof fn lemma_find_none(s: Seq<char>, pat: Seq<char>, i: int, j: int)
    requires
        0 <= i <= j,
        find_from(s, pat, i) is None,
    ensures
        !occurs_at(s, pat, j),
    decreases j - i,
{
    if i + pat.len() <= s.len() && i < j {
        lemma_find_none(s, pat, i + 1, j);
    }
}

/// No occurrence between `i` and the first one found from `i`.
proof fn lemma_find_first(s: Seq<char>, pat: Seq<char>, i: int, j: int)
    requires
        0 <= i <= j,
        find_from(s, pat, i) matches Some(e) && j < e,
    ensures
        !occurs_at(s, pat, j),
    decreases j - i,
{
    if i < j {
        lemma_find_first(s, pat, i + 1, j);
    }
}

/// An occurrence inside a slice is an occurrence in the whole.
proof fn lemma_occurs_in_slice(s: Seq<char>, pat: Seq<char>, a: int, b: int, i: int)
    requires
        0 <= a <= b <= s.len(),
        occurs_at(s.subrange(a, b), pat, i),
    ensures
        occurs_at(s, pat, a + i),
        a + i + pat.len() <= b,
{
    assert(s.subrange(a, b).subrange(i, i + pat.len()) =~= s.subrange(a + i, a + i + pat.len()));
}

/// Trimming keeps a slice of the text.
proof fn lemma_trim_slice(s: Seq<char>)
    ensures
        0 <= skip_space(s, 0) <= back_space(s, skip_space(s, 0), s.len() as int) <= s.len(),
        trim(s) == s.subrange(skip_space(s, 0), back_space(s, skip_space(s, 0), s.len() as int)),
{
    lemma_skip_bounds(s, 0);
    lemma_back_bounds(s, skip_space(s, 0), s.len() as int);
}

proof fn lemma_skip_bounds(s: Seq<char>, i: int)
    requires
        0 <= i <= s.len(),
    ensures
        i <= skip_space(s, i) <= s.len(),
    decreases s.len() - i,
{
    if i < s.len() && crate::text::is_space(s[i]) {
        lemma_skip_bounds(s, i + 1);
    }
}

proof fn lemma_back_bounds(s: Seq<char>, lo: int, j: int)
    requires
        0 <= lo <= j <= s.len(),
    ensures
        lo <= back_space(s, lo, j) <= j,
    decreases j - lo,
{
    if lo < j && crate::text::is_space(s[j - 1]) {
        lemma_back_bounds(s, lo, j - 1);
    }
}

/// A trimmed text without the pattern anywhere has none either.
proof fn lemma_trim_keeps_absence(s: Seq<char>, pat: Seq<char>, i: int)
    requires
        forall|j: int| 0 <= j ==> !#[trigger] occurs_at(s, pat, j),
    ensures
        !occurs_at(trim(s), pat, i),
{
    lemma_trim_slice(s);
    let a = skip_space(s, 0);
    let b = back_space(s, a, s.len() as int);
    if occurs_at(trim(s), pat, i) {
        lemma_occurs_in_slice(s, pat, a, b, i);
    }
}

/// The extracted TOML never contains a Markdown code fence.
pub proof fn lemma_extracted_has_no_fence(reply: Seq<char>, i: int)
    ensures
        !occurs_at(extracted(reply), fence(), i),
{
    let t = trim(reply);
    match find_from(t, fence(), 0) {
        None => {
            if i >= 0 {
                lemma_find_none(t, fence(), 0, i);
            }
        },
        Some(start) => {
            lemma_find_from(t, fence(), 0);
            let after = t.subrange(start + 3, t.len() as int);
            let body_start = match find_from(after, seq!['\n'], 0) {
                Some(k) => k + 1,
                None => 0,
            };
            lemma_find_from(after, seq!['\n'], 0);
            let body = after.subrange(body_start, after.len() as int);
            match find_from(body, fence(), 0) {
                Some(end) => {
                    lemma_find_from(body, fence(), 0);
                    let inner = body.subrange(0, end);
                    assert forall|j: int| 0 <= j implies !#[trigger] occurs_at(inner, fence(), j) by {
                        if occurs_at(inner, fence(), j) {
                            lemma_occurs_in_slice(body, fence(), 0, end, j);
                            lemma_find_first(body, fence(), 0, j);
                        }
                    }
                    lemma_trim_keeps_absence(inner, fence(), i);
                },
                None => {
                    assert forall|j: int| 0 <= j implies !#[trigger] occurs_at(body, fence(), j) by {
                        lemma_find_none(body, fence(), 0, j);
                    }
                    lemma_trim_keeps_absence(body, fence(), i);
                },
            }
        },
    }
}

} // verus!
