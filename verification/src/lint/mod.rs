//! The design-review (lint) engine.
//!
//! Where `config::validate` and `graph::build` enforce hard correctness (a
//! config that fails them cannot be built), the lint engine produces advisory
//! diagnostics about a board that is already valid: bus saturation,
//! unreachable SPI clocks, interrupt overload, and so on. Each diagnostic
//! carries a severity, a stable machine code, a message, and an optional fix
//! suggestion.

use vstd::prelude::*;
use crate::analysis::{bus_utilization, clock, interrupts};
use crate::analysis::bus_utilization::{polled_count, utilization_warnings};
use crate::analysis::clock::clock_warnings;
use crate::analysis::interrupts::density_warnings;
use crate::config::{validate, RawConfig};
use crate::config::validate::{board_from, findings, validation_warnings};
use crate::error::messages;
use crate::frontend::ai::{build_rejection, builds};
use crate::graph;
use crate::model::{Board, I2cBus};
use crate::text::{owned, push_str, str_eq};

verus! {

/// How serious a diagnostic is.
#[derive(Debug, Clone, Copy, PartialEq, Eq, Structural)]
pub enum Severity {
    /// Must be fixed; the design is wrong.
    Error,
    /// Likely a problem; worth reviewing.
    Warning,
    /// Informational; no action required.
    Info,
}

/// The upper-case label of a severity.
pub open spec fn severity_label(s: Severity) -> Seq<char> {
    match s {
        Severity::Error => "ERROR"@,
        Severity::Warning => "WARN"@,
        Severity::Info => "INFO"@,
    }
}

impl Severity {
    /// Uppercase label for human output.
    fn label(self) -> (r: &'static str)
        ensures
            r@ == severity_label(self),
    {
        match self {
            Severity::Error => "ERROR",
            Severity::Warning => "WARN",
            Severity::Info => "INFO",
        }
    }
}

/// A single design-review finding.
#[derive(Debug, Clone)]
pub struct Diagnostic {
    /// Severity of the finding.
    pub severity: Severity,
    /// Stable machine-readable code, e.g. `"i2c-bus-saturation"`.
    pub code: String,
    /// Human-readable description.
    pub message: String,
    /// Optional suggested fix.
    pub suggestion: Option<String>,
}

/// A diagnostic by its characters.
pub struct Finding {
    /// Severity of the finding.
    pub severity: Severity,
    /// Machine-readable code.
    pub code: Seq<char>,
    /// Human-readable description.
    pub message: Seq<char>,
    /// Optional suggested fix.
    pub suggestion: Option<Seq<char>>,
}

impl View for Diagnostic {
    type V = Finding;

    open spec fn view(&self) -> Finding {
        Finding {
            severity: self.severity,
            code: self.code@,
            message: self.message@,
            suggestion: match self.suggestion {
                Some(s) => Some(s@),
                None => None,
            },
        }
    }
}

/// The findings of a list of diagnostics.
pub open spec fn findings_of(ds: Seq<Diagnostic>) -> Seq<Finding> {
    ds.map_values(|d: Diagnostic| d@)
}

impl Diagnostic {
    /// A warning-severity diagnostic.
    pub fn warning(code: &str, message: &str) -> (r: Self)
        ensures
            r@ == (Finding { severity: Severity::Warning, code: code@, message: message@, suggestion: None }),
    {
        Diagnostic { severity: Severity::Warning, code: owned(code), message: owned(message), suggestion: None }
    }

    /// An info-severity diagnostic.
    pub fn info(code: &str, message: &str) -> (r: Self)
        ensures
            r@ == (Finding { severity: Severity::Info, code: code@, message: message@, suggestion: None }),
    {
        Diagnostic { severity: Severity::Info, code: owned(code), message: owned(message), suggestion: None }
    }

    /// An error-severity diagnostic.
    pub fn error(code: &str, message: &str) -> (r: Self)
        ensures
            r@ == (Finding { severity: Severity::Error, code: code@, message: message@, suggestion: None }),
    {
        Diagnostic { severity: Severity::Error, code: owned(code), message: owned(message), suggestion: None }
    }

    /// Attach a suggested fix.
    pub fn with_suggestion(self, suggestion: &str) -> (r: Self)
        ensures
            r@ == (Finding {
                severity: self@.severity,
                code: self@.code,
                message: self@.message,
                suggestion: Some(suggestion@),
            }),
    {
        let mut d = self;
        d.suggestion = Some(owned(suggestion));
        d
    }
}

/// A warning with a suggestion.
pub open spec fn advice(code: Seq<char>, message: Seq<char>, suggestion: Seq<char>) -> Finding {
    Finding { severity: Severity::Warning, code, message, suggestion: Some(suggestion) }
}

/// The saturation suggestion.
pub open spec fn saturation_advice() -> Seq<char> {
    "Split devices across two buses or lower their poll rates."@
}

/// The clock suggestion.
pub open spec fn clock_advice() -> Seq<char> {
    "Request a speed reachable by a power-of-two prescaler of the system clock."@
}

/// The interrupt suggestion.
pub open spec fn interrupt_advice() -> Seq<char> {
    "Poll lower-priority signals instead of interrupting on them."@
}

/// The informational note for a bus with devices but no poll rates.
pub open spec fn no_poll_note(b: I2cBus) -> Finding {
    Finding {
        severity: Severity::Info,
        code: "i2c-no-poll-rate"@,
        message: "I2C bus '"@ + b.label@ + "' has devices but no poll_rate_hz, so utilization was not estimated."@,
        suggestion: None,
    }
}

/// The notes for buses whose utilization could not be estimated.
pub open spec fn no_poll_notes(bs: Seq<I2cBus>) -> Seq<Finding>
    decreases bs.len(),
{
    if bs.len() == 0 {
        Seq::empty()
    } else if bs.last().devices@.len() > 0 && polled_count(bs.last().devices@) == 0 {
        no_poll_notes(bs.drop_last()).push(no_poll_note(bs.last()))
    } else {
        no_poll_notes(bs.drop_last())
    }
}

/// Everything the review reports for a board, in order: saturated buses,
/// clock mismatches, interrupt density, then buses without poll rates.
pub open spec fn review_findings(board: Board) -> Seq<Finding> {
    utilization_warnings(board.i2c_buses@).map_values(
        |m: Seq<char>| advice("i2c-bus-saturation"@, m, saturation_advice()),
    ) + clock_warnings(board.spi_buses@, board.clock_mhz as nat).map_values(
        |m: Seq<char>| advice("spi-clock-mismatch"@, m, clock_advice()),
    ) + density_warnings(board).map_values(|m: Seq<char>| advice("interrupt-density"@, m, interrupt_advice()))
        + no_poll_notes(board.i2c_buses@)
}

/// Append a warning diagnostic with a suggestion for each message.
fn push_advice(out: &mut Vec<Diagnostic>, messages: &Vec<String>, code: &str, suggestion: &str)
    ensures
        findings_of(final(out)@) == findings_of(old(out)@) + messages@.map_values(|m: String| m@).map_values(
            |m: Seq<char>| advice(code@, m, suggestion@),
        ),
{
    let ghost start = findings_of(out@);
    let ghost ms = messages@.map_values(|m: String| m@);
    for i in 0..messages.len()
        invariant
            ms == messages@.map_values(|m: String| m@),
            findings_of(out@) == start + ms.take(i as int).map_values(|m: Seq<char>| advice(code@, m, suggestion@)),
    {
        let d = Diagnostic::warning(code, messages[i].as_str()).with_suggestion(suggestion);
        let ghost before = out@;
        out.push(d);
        assert(findings_of(out@) =~= findings_of(before).push(d@));
        assert(ms.take(i + 1).map_values(|m: Seq<char>| advice(code@, m, suggestion@)) =~= ms.take(
            i as int,
        ).map_values(|m: Seq<char>| advice(code@, m, suggestion@)).push(advice(code@, ms[i as int], suggestion@)));
    }
    assert(ms.take(messages@.len() as int) =~= ms);
}

/// Review an already-valid board, returning advisory diagnostics.
pub fn review(board: &Board) -> (r: Vec<Diagnostic>)
    ensures
        findings_of(r@) == review_findings(*board),
{
    let mut out: Vec<Diagnostic> = Vec::new();
    assert(findings_of(out@) =~= Seq::<Finding>::empty());
    let saturated = bus_utilization::check(board.i2c_buses.as_slice());
    push_advice(&mut out, &saturated, "i2c-bus-saturation", "Split devices across two buses or lower their poll rates.");
    let clocks = clock::check(board);
    push_advice(
        &mut out,
        &clocks,
        "spi-clock-mismatch",
        "Request a speed reachable by a power-of-two prescaler of the system clock.",
    );
    let density = interrupts::check(board);
    push_advice(&mut out, &density, "interrupt-density", "Poll lower-priority signals instead of interrupting on them.");
    let ghost base = findings_of(out@);
    for i in 0..board.i2c_buses.len()
        invariant
            findings_of(out@) == base + no_poll_notes(board.i2c_buses@.take(i as int)),
    {
        assert(board.i2c_buses@.take(i + 1).drop_last() =~= board.i2c_buses@.take(i as int));
        let bus = &board.i2c_buses[i];
        if bus.devices.len() > 0 && bus_utilization::polled_device_count(bus) == 0 {
            let mut m = owned("I2C bus '");
            push_str(&mut m, bus.label.as_str());
            push_str(&mut m, "' has devices but no poll_rate_hz, so utilization was not estimated.");
            let d = Diagnostic::info("i2c-no-poll-rate", m.as_str());
            let ghost before = out@;
            out.push(d);
            assert(findings_of(out@) =~= findings_of(before).push(d@));
        }
        assert(findings_of(out@) =~= base + no_poll_notes(board.i2c_buses@.take(i + 1)));
    }
    assert(board.i2c_buses@.take(board.i2c_buses@.len() as int) =~= board.i2c_buses@);
    out
}

/// True if any diagnostic is an error.
pub fn has_errors(diagnostics: &[Diagnostic]) -> (r: bool)
    ensures
        r == exists|i: int| 0 <= i < diagnostics@.len() && (#[trigger] diagnostics@[i]).severity == Severity::Error,
{
    for i in 0..diagnostics.len()
        invariant
            forall|k: int| 0 <= k < i ==> (#[trigger] diagnostics@[k]).severity != Severity::Error,
    {
        if diagnostics[i].severity == Severity::Error {
            return true;
        }
    }
    false
}

/// The human-readable lines of a run of findings.
pub open spec fn human_lines(fs: Seq<Finding>) -> Seq<char>
    decreases fs.len(),
{
    if fs.len() == 0 {
        Seq::empty()
    } else {
        let f = fs.last();
        human_lines(fs.drop_last()) + "["@ + severity_label(f.severity) + "] "@ + f.code + ": "@ + f.message
            + "\n"@ + match f.suggestion {
            Some(s) => "       \u{21b3} "@ + s + "\n"@,
            None => Seq::empty(),
        }
    }
}

/// The terminal rendering of a list of findings.
pub open spec fn human_text(fs: Seq<Finding>) -> Seq<char> {
    if fs.len() == 0 {
        "No issues found.\n"@
    } else {
        human_lines(fs)
    }
}

/// Render diagnostics for a terminal.
pub fn render_human(diagnostics: &[Diagnostic]) -> (r: String)
    ensures
        r@ == human_text(findings_of(diagnostics@)),
{
    if diagnostics.len() == 0 {
        return owned("No issues found.\n");
    }
    let ghost fs = findings_of(diagnostics@);
    let mut s = String::new();
    for i in 0..diagnostics.len()
        invariant
            fs == findings_of(diagnostics@),
            s@ == human_lines(fs.take(i as int)),
    {
        assert(fs.take(i + 1).drop_last() =~= fs.take(i as int));
        let d = &diagnostics[i];
        push_str(&mut s, "[");
        push_str(&mut s, d.severity.label());
        push_str(&mut s, "] ");
        push_str(&mut s, d.code.as_str());
        push_str(&mut s, ": ");
        push_str(&mut s, d.message.as_str());
        push_str(&mut s, "\n");
        match &d.suggestion {
            Some(sug) => {
                push_str(&mut s, "       \u{21b3} ");
                push_str(&mut s, sug.as_str());
                push_str(&mut s, "\n");
            },
            None => {},
        }
        assert(s@ =~= human_lines(fs.take(i + 1)));
    }
    assert(fs.take(diagnostics@.len() as int) =~= fs);
    s
}

/// A hard error as an error-severity diagnostic.
pub open spec fn invalid_config(m: Seq<char>) -> Finding {
    Finding { severity: Severity::Error, code: "invalid-config"@, message: m, suggestion: None }
}

/// A validation warning as a warning-severity diagnostic.
pub open spec fn config_warning(m: Seq<char>) -> Finding {
    Finding { severity: Severity::Warning, code: "config-warning"@, message: m, suggestion: None }
}

/// `fs` is what linting a document reports: every validation error when it
/// is invalid; otherwise its warnings, then the graph's errors when the
/// dependency graph does not build, else the design review.
pub open spec fn lint_verdict(raw: RawConfig, fs: Seq<Finding>) -> bool {
    if findings(raw).errors.len() > 0 {
        fs == findings(raw).errors.map_values(|m: Seq<char>| invalid_config(m))
    } else {
        let w = validation_warnings(raw).map_values(|m: Seq<char>| config_warning(m));
        exists|b: Board|
            board_from(b, raw) && {
                ||| builds(&b) && fs == w + review_findings(b)
                ||| !builds(&b) && exists|es: Seq<crate::error::ValidationError>|
                    build_rejection(&b, es) && fs == w + messages(es).map_values(|m: Seq<char>| invalid_config(m))
            }
    }
}

/// Append an error diagnostic for each hard error.
fn push_errors(out: &mut Vec<Diagnostic>, errors: &Vec<crate::error::ValidationError>)
    ensures
        findings_of(final(out)@) == findings_of(old(out)@) + messages(errors@).map_values(
            |m: Seq<char>| invalid_config(m),
        ),
{
    let ghost start = findings_of(out@);
    let ghost ms = messages(errors@);
    for i in 0..errors.len()
        invariant
            ms == messages(errors@),
            findings_of(out@) == start + ms.take(i as int).map_values(|m: Seq<char>| invalid_config(m)),
    {
        let d = Diagnostic::error("invalid-config", errors[i].message.as_str());
        let ghost before = out@;
        out.push(d);
        assert(findings_of(out@) =~= findings_of(before).push(d@));
        assert(ms.take(i + 1).map_values(|m: Seq<char>| invalid_config(m)) =~= ms.take(i as int).map_values(
            |m: Seq<char>| invalid_config(m),
        ).push(invalid_config(ms[i as int])));
    }
    assert(ms.take(errors@.len() as int) =~= ms);
}

/// Lint a document: collect hard errors as diagnostics instead of stopping
/// at them (see [`lint_verdict`]).
pub fn diagnose(raw: RawConfig) -> (r: Vec<Diagnostic>)
    ensures
        lint_verdict(raw, findings_of(r@)),
{
    let ghost doc = raw;
    let mut out: Vec<Diagnostic> = Vec::new();
    assert(findings_of(out@) =~= Seq::<Finding>::empty());
    match validate(raw) {
        Err(errors) => {
            push_errors(&mut out, &errors);
            assert(findings_of(out@) =~= findings(doc).errors.map_values(|m: Seq<char>| invalid_config(m)));
        },
        Ok(validated) => {
            let ghost ws = validated.warnings@.map_values(|w: String| w@);
            for i in 0..validated.warnings.len()
                invariant
                    ws == validated.warnings@.map_values(|w: String| w@),
                    findings_of(out@) == ws.take(i as int).map_values(|m: Seq<char>| config_warning(m)),
            {
                let d = Diagnostic::warning("config-warning", validated.warnings[i].as_str());
                let ghost before = out@;
                out.push(d);
                assert(findings_of(out@) =~= findings_of(before).push(d@));
                assert(ws.take(i + 1).map_values(|m: Seq<char>| config_warning(m)) =~= ws.take(i as int).map_values(
                    |m: Seq<char>| config_warning(m),
                ).push(config_warning(ws[i as int])));
            }
            assert(ws.take(validated.warnings@.len() as int) =~= ws);
            let ghost w = findings_of(out@);
            match graph::build(&validated.board) {
                Err(errors) => {
                    push_errors(&mut out, &errors);
                    assert(board_from(validated.board, doc) && !builds(&validated.board) && build_rejection(
                        &validated.board,
                        errors@,
                    ) && findings_of(out@) == w + messages(errors@).map_values(|m: Seq<char>| invalid_config(m)));
                },
                Ok(_) => {
                    let mut reviewed = review(&validated.board);
                    let ghost rv = reviewed@;
                    out.append(&mut reviewed);
                    assert(findings_of(out@) =~= w + findings_of(rv));
                    assert(board_from(validated.board, doc) && builds(&validated.board));
                },
            }
        },
    }
    out
}

/// The design review is advisory: it never reports an error-severity
/// diagnostic, so a board that validated and built is never failed by it.
pub proof fn lemma_review_never_errors(board: Board, i: int)
    requires
        0 <= i < review_findings(board).len(),
    ensures
        review_findings(board)[i].severity != Severity::Error,
{
    let a = utilization_warnings(board.i2c_buses@).map_values(
        |m: Seq<char>| advice("i2c-bus-saturation"@, m, saturation_advice()),
    );
    let b = clock_warnings(board.spi_buses@, board.clock_mhz as nat).map_values(
        |m: Seq<char>| advice("spi-clock-mismatch"@, m, clock_advice()),
    );
    let c = density_warnings(board).map_values(|m: Seq<char>| advice("interrupt-density"@, m, interrupt_advice()));
    let n = no_poll_notes(board.i2c_buses@);
    assert(review_findings(board) == a + b + c + n);
    if i >= a.len() + b.len() + c.len() {
        lemma_no_poll_notes_info(board.i2c_buses@, i - a.len() - b.len() - c.len());
    }
}

/// Some finding is an error.
pub open spec fn has_error(fs: Seq<Finding>) -> bool {
    exists|i: int| 0 <= i < fs.len() && (#[trigger] fs[i]).severity == Severity::Error
}

/// Lint fails exactly on the documents that cannot be built: one that does
/// not validate is reported with nothing but errors, and for one that does,
/// an error is reported exactly when the dependency graph of the board it
/// describes does not build.
pub proof fn lemma_lint_fails_exactly_on_hard_errors(raw: RawConfig, fs: Seq<Finding>)
    requires
        lint_verdict(raw, fs),
    ensures
        findings(raw).errors.len() > 0 ==> has_error(fs) && forall|i: int|
            0 <= i < fs.len() ==> (#[trigger] fs[i]).severity == Severity::Error,
        findings(raw).errors.len() == 0 ==> exists|b: Board| board_from(b, raw) && (has_error(fs) <==> !builds(&b)),
{
    if findings(raw).errors.len() > 0 {
        assert(fs[0] == invalid_config(findings(raw).errors[0]));
    } else {
        let w = validation_warnings(raw).map_values(|m: Seq<char>| config_warning(m));
        let b = choose|b: Board|
            board_from(b, raw) && {
                ||| builds(&b) && fs == w + review_findings(b)
                ||| !builds(&b) && exists|es: Seq<crate::error::ValidationError>|
                    build_rejection(&b, es) && fs == w + messages(es).map_values(|m: Seq<char>| invalid_config(m))
            };
        if builds(&b) {
            assert forall|i: int| 0 <= i < fs.len() implies (#[trigger] fs[i]).severity != Severity::Error by {
                if i >= w.len() {
                    lemma_review_never_errors(b, i - w.len());
                }
            }
        } else {
            let es = choose|es: Seq<crate::error::ValidationError>|
                build_rejection(&b, es) && fs == w + messages(es).map_values(|m: Seq<char>| invalid_config(m));
            assert(messages(es).len() > 0);
            assert(fs[w.len() as int] == invalid_config(messages(es)[0]));
        }
        assert(board_from(b, raw) && (has_error(fs) <==> !builds(&b)));
    }
}

/// The notes about buses without poll rates are informational.
proof fn lemma_no_poll_notes_info(bs: Seq<I2cBus>, k: int)
    requires
        0 <= k < no_poll_notes(bs).len(),
    ensures
        no_poll_notes(bs)[k].severity == Severity::Info,
    decreases bs.len(),
{
    if bs.len() > 0 {
        if k < no_poll_notes(bs.drop_last()).len() {
            lemma_no_poll_notes_info(bs.drop_last(), k);
        }
    }
}

/// The bus has devices and none of them declares a poll rate.
pub open spec fn unpolled(b: I2cBus) -> bool {
    &&& b.devices@.len() > 0
    &&& forall|j: int| 0 <= j < b.devices@.len() ==> (#[trigger] b.devices@[j]).poll_rate_hz is None
}

proof fn lemma_polled_zero(ds: Seq<crate::model::I2cDevice>)
    ensures
        (polled_count(ds) == 0) == forall|j: int| 0 <= j < ds.len() ==> (#[trigger] ds[j]).poll_rate_hz is None,
    decreases ds.len(),
{
    if ds.len() > 0 {
        lemma_polled_zero(ds.drop_last());
        if polled_count(ds) == 0 {
            assert forall|j: int| 0 <= j < ds.len() implies (#[trigger] ds[j]).poll_rate_hz is None by {
                if j < ds.len() - 1 {
                    assert(ds.drop_last()[j] == ds[j]);
                }
            }
        } else if forall|j: int| 0 <= j < ds.len() ==> (#[trigger] ds[j]).poll_rate_hz is None {
            assert(ds[ds.len() - 1].poll_rate_hz is None);
            assert forall|j: int| 0 <= j < ds.drop_last().len() implies (#[trigger] ds.drop_last()[j]).poll_rate_hz is None by {
                assert(ds[j].poll_rate_hz is None);
            }
        }
    }
}

proof fn lemma_no_poll_notes_sound(bs: Seq<I2cBus>, k: int)
    requires
        0 <= k < no_poll_notes(bs).len(),
    ensures
        exists|i: int| 0 <= i < bs.len() && unpolled(bs[i]) && no_poll_notes(bs)[k] == no_poll_note(bs[i]),
    decreases bs.len(),
{
    let n = bs.len() - 1;
    lemma_polled_zero(bs[n].devices@);
    if k < no_poll_notes(bs.drop_last()).len() {
        lemma_no_poll_notes_sound(bs.drop_last(), k);
        let i = choose|i: int|
            0 <= i < bs.drop_last().len() && unpolled(bs.drop_last()[i]) && no_poll_notes(bs.drop_last())[k]
                == no_poll_note(bs.drop_last()[i]);
        assert(bs[i] == bs.drop_last()[i]);
    } else {
        assert(no_poll_notes(bs)[k] == no_poll_note(bs[n]));
        assert(unpolled(bs[n]));
    }
}

proof fn lemma_no_poll_notes_complete(bs: Seq<I2cBus>, i: int)
    requires
        0 <= i < bs.len(),
        unpolled(bs[i]),
    ensures
        no_poll_notes(bs).contains(no_poll_note(bs[i])),
    decreases bs.len(),
{
    let n = bs.len() - 1;
    lemma_polled_zero(bs[n].devices@);
    if i < n {
        assert(bs.drop_last()[i] == bs[i]);
        lemma_no_poll_notes_complete(bs.drop_last(), i);
        let t = no_poll_notes(bs.drop_last()).index_of(no_poll_note(bs[i]));
        assert(no_poll_notes(bs)[t] == no_poll_note(bs[i]));
    } else {
        let m = no_poll_notes(bs);
        assert(m[m.len() - 1] == no_poll_note(bs[i]));
    }
}

/// The review notes a bus whose utilization it could not estimate exactly
/// when the bus has devices and none of them declares a poll rate: every such
/// bus gets the `i2c-no-poll-rate` note, and every note with that code is the
/// note of such a bus.
pub proof fn lemma_review_no_poll_notes(board: Board)
    ensures
        forall|i: int|
            0 <= i < board.i2c_buses@.len() && unpolled(#[trigger] board.i2c_buses@[i]) ==> review_findings(
                board,
            ).contains(no_poll_note(board.i2c_buses@[i])),
        forall|k: int|
            0 <= k < review_findings(board).len() && (#[trigger] review_findings(board)[k]).code == "i2c-no-poll-rate"@
                ==> exists|i: int|
                0 <= i < board.i2c_buses@.len() && unpolled(board.i2c_buses@[i]) && review_findings(board)[k]
                    == no_poll_note(board.i2c_buses@[i]),
{
    let a = utilization_warnings(board.i2c_buses@).map_values(
        |m: Seq<char>| advice("i2c-bus-saturation"@, m, saturation_advice()),
    );
    let b = clock_warnings(board.spi_buses@, board.clock_mhz as nat).map_values(
        |m: Seq<char>| advice("spi-clock-mismatch"@, m, clock_advice()),
    );
    let c = density_warnings(board).map_values(|m: Seq<char>| advice("interrupt-density"@, m, interrupt_advice()));
    let n = no_poll_notes(board.i2c_buses@);
    let r = review_findings(board);
    assert(r == a + b + c + n);
    let pre = a + b + c;
    assert forall|i: int|
        0 <= i < board.i2c_buses@.len() && unpolled(#[trigger] board.i2c_buses@[i]) implies r.contains(
        no_poll_note(board.i2c_buses@[i]),
    ) by {
        lemma_no_poll_notes_complete(board.i2c_buses@, i);
        let t = n.index_of(no_poll_note(board.i2c_buses@[i]));
        assert(r[pre.len() + t] == n[t]);
    }
    assert forall|k: int| 0 <= k < r.len() && (#[trigger] r[k]).code == "i2c-no-poll-rate"@ implies exists|i: int|
        0 <= i < board.i2c_buses@.len() && unpolled(board.i2c_buses@[i]) && r[k] == no_poll_note(board.i2c_buses@[i]) by {
        reveal_strlit("i2c-no-poll-rate");
        reveal_strlit("i2c-bus-saturation");
        reveal_strlit("spi-clock-mismatch");
        reveal_strlit("interrupt-density");
        if k < a.len() {
            assert(r[k] == a[k]);
            assert(r[k].code == "i2c-bus-saturation"@);
            assert("i2c-bus-saturation"@.len() != "i2c-no-poll-rate"@.len());
        } else if k < a.len() + b.len() {
            assert(r[k] == b[k - a.len()]);
            assert(r[k].code == "spi-clock-mismatch"@);
            assert("spi-clock-mismatch"@.len() != "i2c-no-poll-rate"@.len());
        } else if k < pre.len() {
            assert(r[k] == c[k - a.len() - b.len()]);
            assert(r[k].code == "interrupt-density"@);
            assert("interrupt-density"@.len() != "i2c-no-poll-rate"@.len());
        } else {
            assert(r[k] == n[k - pre.len()]);
            lemma_no_poll_notes_sound(board.i2c_buses@, k - pre.len());
        }
    }
}

} // verus!
