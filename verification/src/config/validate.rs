//! Semantic validation: lower a [`RawConfig`] into a [`Board`], collecting every
//! problem along the way.
//!
//! Validation never stops at the first error. Hard errors are accumulated into a
//! `Vec<ValidationError>`; softer issues (e.g. reserved I2C addresses) are
//! collected as warnings and returned alongside a successfully-built board.
//!
//! The specification below walks the document in the same order as the
//! checks run, so the exact list of messages (and their order) is stated: see
//! [`findings`].

use vstd::prelude::*;
use crate::config::parse::{
    RawBoard, RawConfig, RawGpio, RawI2c, RawI2cDevice, RawSpi, RawSpiDevice, RawUart,
};
use crate::error::{messages, lemma_messages_push, ValidationError};
use crate::model::board::{edge_named, gpio_mode_named};
use crate::model::{Board, Gpio, GpioMode, I2cBus, I2cDevice, InterruptEdge, SpiBus, SpiDevice, Uart};
use crate::config::uniqueness::{board_pins, describes_sound_board, lemma_sound_board_validates, lemma_validated_claims_distinct};
use crate::graph::builder::board_labels;
use crate::text::{opt_str, dec, dec_int, hex_byte, push_str, push_dec, push_dec_i64, push_hex_byte, owned, chars_of, str_eq};

verus! {

/// What validation has found so far: hard errors, warnings, and the first
/// claimant of every pin and label seen.
#[verifier::ext_equal]
pub struct Findings {
    /// Error messages, in the order they were found.
    pub errors: Seq<Seq<char>>,
    /// Warning messages, in the order they were found.
    pub warnings: Seq<Seq<char>>,
    /// Each claimed pin with a description of its first claimant.
    pub pins: Seq<(u32, Seq<char>)>,
    /// Each claimed label with a description of its first claimant.
    pub labels: Seq<(Seq<char>, Seq<char>)>,
}

/// The value recorded for the first entry with `key`, if any.
pub open spec fn lookup<K, V>(entries: Seq<(K, V)>, key: K) -> Option<V>
    decreases entries.len(),
{
    if entries.len() == 0 {
        None
    } else {
        match lookup(entries.drop_last(), key) {
            Some(v) => Some(v),
            None => if entries.last().0 == key {
                Some(entries.last().1)
            } else {
                None
            },
        }
    }
}

/// A prefix that already names `key` decides the lookup.
pub proof fn lemma_lookup_prefix<K, V>(entries: Seq<(K, V)>, key: K, j: int)
    requires
        0 <= j <= entries.len(),
        lookup(entries.take(j), key) is Some,
    ensures
        lookup(entries, key) == lookup(entries.take(j), key),
    decreases entries.len() - j,
{
    if j < entries.len() {
        assert(entries.take(j + 1).drop_last() =~= entries.take(j));
        lemma_lookup_prefix(entries, key, j + 1);
    } else {
        assert(entries.take(j) =~= entries);
    }
}

/// Findings with one more error.
pub open spec fn with_error(f: Findings, m: Seq<char>) -> Findings {
    Findings { errors: f.errors.push(m), warnings: f.warnings, pins: f.pins, labels: f.labels }
}

/// Findings with one more warning.
pub open spec fn with_warning(f: Findings, m: Seq<char>) -> Findings {
    Findings { errors: f.errors, warnings: f.warnings.push(m), pins: f.pins, labels: f.labels }
}

/// The error for a pin claimed twice.
pub open spec fn pin_conflict_msg(pin: u32, existing: Seq<char>, owner: Seq<char>) -> Seq<char> {
    "Pin "@ + dec(pin as nat) + " is claimed by both "@ + existing + " and "@ + owner
        + ". Each pin can only be assigned to one peripheral."@
}

/// The error for a label used twice.
pub open spec fn label_conflict_msg(label: Seq<char>, existing: Seq<char>, owner: Seq<char>) -> Seq<
    char,
> {
    "Label '"@ + label + "' is used by both "@ + existing + " and "@ + owner
        + ". Labels must be unique because they become C identifiers."@
}

/// Claim `pin` for `owner`: an error naming both claimants if it is taken.
pub open spec fn claim_pin(f: Findings, pin: u32, owner: Seq<char>) -> Findings {
    match lookup(f.pins, pin) {
        Some(existing) => with_error(f, pin_conflict_msg(pin, existing, owner)),
        None => Findings {
            errors: f.errors,
            warnings: f.warnings,
            pins: f.pins.push((pin, owner)),
            labels: f.labels,
        },
    }
}

/// Claim a pin when one is given.
pub open spec fn claim_pin_opt(f: Findings, pin: Option<u32>, owner: Seq<char>) -> Findings {
    match pin {
        Some(p) => claim_pin(f, p, owner),
        None => f,
    }
}

/// Claim `label` for `owner`: an error naming both claimants if it is taken.
pub open spec fn claim_label(f: Findings, label: Seq<char>, owner: Seq<char>) -> Findings {
    match lookup(f.labels, label) {
        Some(existing) => with_error(f, label_conflict_msg(label, existing, owner)),
        None => Findings {
            errors: f.errors,
            warnings: f.warnings,
            pins: f.pins,
            labels: f.labels.push((label, owner)),
        },
    }
}

/// A character that may start a C identifier.
pub open spec fn is_ident_start(c: char) -> bool {
    ('a' <= c && c <= 'z') || ('A' <= c && c <= 'Z') || c == '_'
}

/// A character that may continue a C identifier.
pub open spec fn is_ident_char(c: char) -> bool {
    is_ident_start(c) || ('0' <= c && c <= '9')
}

/// A legal C identifier: a letter or underscore, then letters, digits or
/// underscores.
pub open spec fn is_c_identifier(s: Seq<char>) -> bool {
    &&& s.len() > 0
    &&& is_ident_start(s[0])
    &&& forall|i: int| 1 <= i < s.len() ==> #[trigger] is_ident_char(s[i])
}

/// `'text'`.
pub open spec fn quoted(s: Seq<char>) -> Seq<char> {
    "'"@ + s + "'"@
}

/// `#n` for the entry at zero-based position `idx`.
pub open spec fn numbered(idx: nat) -> Seq<char> {
    "#"@ + dec(idx + 1)
}

/// How an entry is named in messages: by its label, else by its position and
/// the number it gives (`#2 (pin 5)`), else by its position alone.
pub open spec fn described(label: Option<Seq<char>>, idx: nat, what: Seq<char>, n: Option<u32>) -> Seq<
    char,
> {
    match label {
        Some(l) => quoted(l),
        None => match n {
            Some(v) => numbered(idx) + " ("@ + what + " "@ + dec(v as nat) + ")"@,
            None => numbered(idx),
        },
    }
}

/// The error for a required field that is absent.
pub open spec fn missing_msg(peripheral: Seq<char>, owner: Seq<char>, field: Seq<char>) -> Seq<char> {
    peripheral + " "@ + owner + " is missing required field '"@ + field + "'"@
}

/// What is wrong with a label field, if anything.
pub open spec fn label_problem(label: Option<Seq<char>>, peripheral: Seq<char>, owner: Seq<char>) -> Option<
    Seq<char>,
> {
    match label {
        None => Some(missing_msg(peripheral, owner, "label"@)),
        Some(l) => if l.len() == 0 {
            Some(peripheral + " "@ + owner + " has an empty label"@)
        } else if !is_c_identifier(l) {
            Some(
                peripheral + " label '"@ + l
                    + "' is not a valid C identifier (use letters, digits, and underscores; must not start with a digit)"@,
            )
        } else {
            None
        },
    }
}

/// The label, when it is present and usable.
pub open spec fn usable_label(label: Option<Seq<char>>) -> Option<Seq<char>> {
    match label {
        Some(l) => if is_c_identifier(l) {
            Some(l)
        } else {
            None
        },
        None => None,
    }
}

/// Check a label field.
pub open spec fn check_label(f: Findings, label: Option<Seq<char>>, peripheral: Seq<char>, owner: Seq<char>) -> Findings {
    match label_problem(label, peripheral, owner) {
        Some(m) => with_error(f, m),
        None => f,
    }
}

/// Check that a required field is present.
pub open spec fn require(f: Findings, present: bool, field: Seq<char>, peripheral: Seq<char>, owner: Seq<char>) -> Findings {
    if present {
        f
    } else {
        with_error(f, missing_msg(peripheral, owner, field))
    }
}

/// Nothing found yet.
pub open spec fn no_findings() -> Findings {
    Findings { errors: Seq::empty(), warnings: Seq::empty(), pins: Seq::empty(), labels: Seq::empty() }
}

/// The `[board]` table's findings.
pub open spec fn board_checks(b: RawBoard) -> Findings {
    let f1 = if b.name is None {
        with_error(no_findings(), "[board] is missing required field 'name'"@)
    } else {
        no_findings()
    };
    let f2 = if b.mcu is None {
        with_error(f1, "[board] is missing required field 'mcu'"@)
    } else {
        f1
    };
    let f3 = if b.clock_mhz is None {
        with_error(f2, "[board] is missing required field 'clock_mhz'"@)
    } else {
        f2
    };
    if b.clock_mhz == Some(0u32) {
        with_warning(f3, "[board].clock_mhz is 0; baud-rate timing in generated code may be wrong"@)
    } else {
        f3
    }
}

/// The successful result of validation: a board plus any non-fatal warnings.
#[derive(Debug, Clone)]
pub struct Validated {
    /// The validated board model.
    pub board: Board,
    /// Non-fatal warnings to surface to the user.
    pub warnings: Vec<String>,
}

/// The characters of each string.
pub open spec fn string_views(v: Seq<String>) -> Seq<Seq<char>> {
    v.map_values(|s: String| s@)
}

/// A pin registry by its characters.
pub open spec fn pin_entries(v: Seq<(u32, String)>) -> Seq<(u32, Seq<char>)> {
    v.map_values(|e: (u32, String)| (e.0, e.1@))
}

/// A label registry by its characters.
pub open spec fn label_entries(v: Seq<(String, String)>) -> Seq<(Seq<char>, Seq<char>)> {
    v.map_values(|e: (String, String)| (e.0@, e.1@))
}

/// Accumulates errors, warnings, and the pin/label registries used for
/// cross-cutting uniqueness checks.
struct Collector {
    errors: Vec<ValidationError>,
    warnings: Vec<String>,
    /// Each claimed pin with a description of its first claimant.
    pins: Vec<(u32, String)>,
    /// Each claimed label with a description of its first claimant.
    labels: Vec<(String, String)>,
}

impl View for Collector {
    type V = Findings;

    closed spec fn view(&self) -> Findings {
        Findings {
            errors: messages(self.errors@),
            warnings: string_views(self.warnings@),
            pins: pin_entries(self.pins@),
            labels: label_entries(self.labels@),
        }
    }
}

/// `Pin {pin} is claimed by both {existing} and {owner}. ...`
fn pin_conflict(pin: u32, existing: &str, owner: &str) -> (r: String)
    ensures
        r@ == pin_conflict_msg(pin, existing@, owner@),
{
    let mut s = String::new();
    push_str(&mut s, "Pin ");
    push_dec(&mut s, pin as u64);
    push_str(&mut s, " is claimed by both ");
    push_str(&mut s, existing);
    push_str(&mut s, " and ");
    push_str(&mut s, owner);
    push_str(&mut s, ". Each pin can only be assigned to one peripheral.");
    proof {
        assert(s@ =~= pin_conflict_msg(pin, existing@, owner@));
    }
    s
}

/// `Label '{label}' is used by both {existing} and {owner}. ...`
fn label_conflict(label: &str, existing: &str, owner: &str) -> (r: String)
    ensures
        r@ == label_conflict_msg(label@, existing@, owner@),
{
    let mut s = String::new();
    push_str(&mut s, "Label '");
    push_str(&mut s, label);
    push_str(&mut s, "' is used by both ");
    push_str(&mut s, existing);
    push_str(&mut s, " and ");
    push_str(&mut s, owner);
    push_str(&mut s, ". Labels must be unique because they become C identifiers.");
    proof {
        assert(s@ =~= label_conflict_msg(label@, existing@, owner@));
    }
    s
}

impl Collector {
    fn new() -> (r: Self)
        ensures
            r@ == no_findings(),
    {
        let r = Collector { errors: Vec::new(), warnings: Vec::new(), pins: Vec::new(), labels: Vec::new() };
        proof {
            assert(r@.errors =~= Seq::<Seq<char>>::empty());
            assert(r@.warnings =~= Seq::<Seq<char>>::empty());
            assert(r@.pins =~= Seq::<(u32, Seq<char>)>::empty());
            assert(r@.labels =~= Seq::<(Seq<char>, Seq<char>)>::empty());
        }
        r
    }

    fn error(&mut self, msg: String)
        ensures
            final(self)@ == with_error(old(self)@, msg@),
    {
        let e = ValidationError::from_string(msg);
        proof {
            lemma_messages_push(self.errors@, e);
        }
        self.errors.push(e);
        proof {
            assert(self@ =~= with_error(old(self)@, msg@));
        }
    }

    fn warn(&mut self, msg: String)
        ensures
            final(self)@ == with_warning(old(self)@, msg@),
    {
        let ghost before = self.warnings@;
        self.warnings.push(msg);
        proof {
            assert(string_views(self.warnings@) =~= string_views(before).push(msg@));
            assert(self@ =~= with_warning(old(self)@, msg@));
        }
    }

    /// Claim a pin for `owner`. If the pin is already claimed, record a
    /// conflict error naming both claimants.
    fn claim_pin(&mut self, pin: u32, owner: String)
        ensures
            final(self)@ == claim_pin(old(self)@, pin, owner@),
    {
        let ghost entries = self@.pins;
        let mut i: usize = 0;
        while i < self.pins.len()
            invariant
                i <= self.pins@.len(),
                *self == *old(self),
                entries == pin_entries(self.pins@),
                lookup(entries.take(i as int), pin) is None,
            decreases self.pins@.len() - i,
        {
            proof {
                assert(entries.take(i + 1).drop_last() =~= entries.take(i as int));
            }
            if self.pins[i].0 == pin {
                proof {
                    lemma_lookup_prefix(entries, pin, i + 1);
                }
                let existing = self.pins[i].1.clone();
                let msg = pin_conflict(pin, existing.as_str(), owner.as_str());
                self.error(msg);
                return;
            }
            i += 1;
        }
        proof {
            assert(entries.take(i as int) =~= entries);
        }
        let ghost before = self.pins@;
        self.pins.push((pin, owner));
        proof {
            assert(pin_entries(self.pins@) =~= pin_entries(before).push((pin, owner@)));
            assert(self@ =~= claim_pin(old(self)@, pin, owner@));
        }
    }

    /// Claim a label for `owner`. If the label is already claimed, record a
    /// duplicate-label error naming both claimants.
    fn claim_label(&mut self, label: &str, owner: String)
        ensures
            final(self)@ == claim_label(old(self)@, label@, owner@),
    {
        let ghost entries = self@.labels;
        let mut i: usize = 0;
        while i < self.labels.len()
            invariant
                i <= self.labels@.len(),
                *self == *old(self),
                entries == label_entries(self.labels@),
                lookup(entries.take(i as int), label@) is None,
            decreases self.labels@.len() - i,
        {
            proof {
                assert(entries.take(i + 1).drop_last() =~= entries.take(i as int));
            }
            if str_eq(self.labels[i].0.as_str(), label) {
                proof {
                    lemma_lookup_prefix(entries, label@, i + 1);
                }
                let existing = self.labels[i].1.clone();
                let msg = label_conflict(label, existing.as_str(), owner.as_str());
                self.error(msg);
                return;
            }
            i += 1;
        }
        proof {
            assert(entries.take(i as int) =~= entries);
        }
        let ghost before = self.labels@;
        self.labels.push((owned(label), owner));
        proof {
            assert(label_entries(self.labels@) =~= label_entries(before).push((label@, owner@)));
            assert(self@ =~= claim_label(old(self)@, label@, owner@));
        }
    }
}

/// The error for an unknown GPIO mode.
pub open spec fn invalid_mode_msg(owner: Seq<char>, m: Seq<char>) -> Seq<char> {
    "gpio "@ + owner + " has invalid mode '"@ + m
        + "' (expected: input, output, input_pullup, input_pulldown)"@
}

/// The error for an unknown interrupt edge.
pub open spec fn invalid_edge_msg(owner: Seq<char>, e: Seq<char>) -> Seq<char> {
    "gpio "@ + owner + " has invalid interrupt '"@ + e + "' (expected: rising, falling, both, none)"@
}

/// The pin number shown for a GPIO's label claim, `-1` when it has none.
pub open spec fn shown_pin(pin: Option<u32>) -> int {
    match pin {
        Some(p) => p as int,
        None => -1,
    }
}

/// `{kind} '{label}'` when the label is usable, else `{kind} #n`.
pub open spec fn entry_name(kind: Seq<char>, lab: Option<Seq<char>>, idx: nat) -> Seq<char> {
    match lab {
        Some(l) => kind + " "@ + quoted(l),
        None => kind + " "@ + numbered(idx),
    }
}

/// One `[[gpio]]` entry's findings.
pub open spec fn gpio_check(f: Findings, idx: nat, g: RawGpio) -> Findings {
    let label = opt_str(g.label);
    let od = described(label, idx, "pin"@, g.pin);
    let lab = usable_label(label);
    let f1 = check_label(f, label, "gpio"@, od);
    let f2 = require(f1, g.pin is Some, "pin"@, "gpio"@, od);
    let f3 = match opt_str(g.mode) {
        None => with_error(f2, missing_msg("gpio"@, od, "mode"@)),
        Some(m) => if gpio_mode_named(m) is Some {
            f2
        } else {
            with_error(f2, invalid_mode_msg(od, m))
        },
    };
    let f4 = match opt_str(g.interrupt) {
        None => f3,
        Some(e) => if e == "none"@ || edge_named(e) is Some {
            f3
        } else {
            with_error(f3, invalid_edge_msg(od, e))
        },
    };
    let f5 = match lab {
        Some(l) => claim_label(f4, l, "gpio (pin "@ + dec_int(shown_pin(g.pin)) + ")"@),
        None => f4,
    };
    claim_pin_opt(f5, g.pin, entry_name("gpio"@, lab, idx))
}

/// The findings of a run of `[[gpio]]` entries.
pub open spec fn gpio_checks(f: Findings, raw: Seq<RawGpio>) -> Findings
    decreases raw.len(),
{
    if raw.len() == 0 {
        f
    } else {
        gpio_check(gpio_checks(f, raw.drop_last()), (raw.len() - 1) as nat, raw.last())
    }
}

/// A `[[gpio]]` entry with every required field present and valid.
pub open spec fn gpio_complete(g: RawGpio) -> bool {
    &&& g.pin is Some
    &&& g.mode matches Some(m) && gpio_mode_named(m@) is Some
    &&& usable_label(opt_str(g.label)) is Some
}

/// `x` is the pin that the entry `g` describes.
pub open spec fn gpio_from(x: Gpio, g: RawGpio) -> bool {
    &&& g.pin == Some(x.pin)
    &&& g.mode matches Some(m) && gpio_mode_named(m@) == Some(x.mode)
    &&& g.label matches Some(l) && l@ == x.label@ && is_c_identifier(l@)
    &&& x.interrupt == match opt_str(g.interrupt) {
        Some(e) => edge_named(e),
        None => None,
    }
}

/// Errors only accumulate, and an incomplete entry adds at least one.
pub proof fn lemma_gpio_check(f: Findings, idx: nat, g: RawGpio)
    ensures
        gpio_check(f, idx, g).errors.len() >= f.errors.len(),
        !gpio_complete(g) ==> gpio_check(f, idx, g).errors.len() > f.errors.len(),
{
}

/// `a` followed by `b`.
fn concat2(a: &str, b: &str) -> (r: String)
    ensures
        r@ == a@ + b@,
{
    let mut s = owned(a);
    push_str(&mut s, b);
    s
}

/// Append `#n` for the zero-based position `idx`.
fn push_numbered(s: &mut String, idx: usize)
    requires
        idx < usize::MAX,
    ensures
        final(s)@ == old(s)@ + numbered(idx as nat),
{
    push_str(s, "#");
    push_dec(s, (idx + 1) as u64);
    assert(final(s)@ =~= old(s)@ + numbered(idx as nat));
}

/// Append `'text'`.
fn push_quoted(s: &mut String, t: &str)
    ensures
        final(s)@ == old(s)@ + quoted(t@),
{
    push_str(s, "'");
    push_str(s, t);
    push_str(s, "'");
    assert(final(s)@ =~= old(s)@ + quoted(t@));
}

/// How an entry is named in messages (see [`described`]).
fn describe_entry(label: &Option<String>, idx: usize, what: &str, n: Option<u32>) -> (r: String)
    requires
        idx < usize::MAX,
    ensures
        r@ == described(opt_str(*label), idx as nat, what@, n),
{
    let mut s = String::new();
    match label {
        Some(l) => push_quoted(&mut s, l.as_str()),
        None => {
            push_numbered(&mut s, idx);
            match n {
                Some(v) => {
                    push_str(&mut s, " (");
                    push_str(&mut s, what);
                    push_str(&mut s, " ");
                    push_dec(&mut s, v as u64);
                    push_str(&mut s, ")");
                },
                None => {},
            }
        },
    }
    assert(s@ =~= described(opt_str(*label), idx as nat, what@, n));
    s
}

/// `{kind} '{label}'` or `{kind} #n` (see [`entry_name`]).
fn name_entry(kind: &str, lab: &Option<String>, idx: usize) -> (r: String)
    requires
        idx < usize::MAX,
    ensures
        r@ == entry_name(kind@, opt_str(*lab), idx as nat),
{
    let mut s = owned(kind);
    push_str(&mut s, " ");
    match lab {
        Some(l) => push_quoted(&mut s, l.as_str()),
        None => push_numbered(&mut s, idx),
    }
    assert(s@ =~= entry_name(kind@, opt_str(*lab), idx as nat));
    s
}

/// `{peripheral} {owner} is missing required field '{field}'`
fn missing(peripheral: &str, owner: &str, field: &str) -> (r: String)
    ensures
        r@ == missing_msg(peripheral@, owner@, field@),
{
    let mut s = owned(peripheral);
    push_str(&mut s, " ");
    push_str(&mut s, owner);
    push_str(&mut s, " is missing required field '");
    push_str(&mut s, field);
    push_str(&mut s, "'");
    assert(s@ =~= missing_msg(peripheral@, owner@, field@));
    s
}

/// A label must be a valid C identifier: starts with a letter or underscore,
/// followed by letters, digits, or underscores.
fn is_identifier(s: &str) -> (r: bool)
    ensures
        r == is_c_identifier(s@),
{
    let cs = chars_of(s);
    if cs.len() == 0 {
        return false;
    }
    let c0 = cs[0];
    if !(('a' <= c0 && c0 <= 'z') || ('A' <= c0 && c0 <= 'Z') || c0 == '_') {
        return false;
    }
    let mut i: usize = 1;
    while i < cs.len()
        invariant
            1 <= i <= cs@.len(),
            cs@ == s@,
            forall|k: int| 1 <= k < i ==> #[trigger] is_ident_char(cs@[k]),
        decreases cs@.len() - i,
    {
        let c = cs[i];
        if !(('a' <= c && c <= 'z') || ('A' <= c && c <= 'Z') || c == '_' || ('0' <= c && c <= '9')) {
            assert(!is_ident_char(cs@[i as int]));
            return false;
        }
        i += 1;
    }
    true
}

impl Collector {
    /// Validate a label field: present, and a legal C identifier. Returns the
    /// label if usable.
    fn check_label(&mut self, label: &Option<String>, peripheral: &str, owner: &str) -> (r: Option<String>)
        ensures
            final(self)@ == check_label(old(self)@, opt_str(*label), peripheral@, owner@),
            opt_str(r) == usable_label(opt_str(*label)),
    {
        match label {
            None => {
                let m = missing(peripheral, owner, "label");
                self.error(m);
                None
            },
            Some(l) => {
                if l.as_str().is_empty() {
                    let mut m = owned(peripheral);
                    push_str(&mut m, " ");
                    push_str(&mut m, owner);
                    push_str(&mut m, " has an empty label");
                    assert(m@ =~= peripheral@ + " "@ + owner@ + " has an empty label"@);
                    self.error(m);
                    None
                } else if !is_identifier(l.as_str()) {
                    let mut m = owned(peripheral);
                    push_str(&mut m, " label '");
                    push_str(&mut m, l.as_str());
                    push_str(
                        &mut m,
                        "' is not a valid C identifier (use letters, digits, and underscores; must not start with a digit)",
                    );
                    assert(m@ =~= peripheral@ + " label '"@ + l@
                        + "' is not a valid C identifier (use letters, digits, and underscores; must not start with a digit)"@);
                    self.error(m);
                    None
                } else {
                    Some(l.clone())
                }
            },
        }
    }

    /// Require a field, recording an error if it is absent.
    fn require(&mut self, present: bool, field: &str, peripheral: &str, owner: &str)
        ensures
            final(self)@ == require(old(self)@, present, field@, peripheral@, owner@),
    {
        if !present {
            let m = missing(peripheral, owner, field);
            self.error(m);
        }
    }
}

/// Check one `[[gpio]]` entry; the pin when every field is usable.
fn check_gpio(cx: &mut Collector, idx: usize, g: &RawGpio) -> (r: Option<Gpio>)
    requires
        idx < usize::MAX,
    ensures
        final(cx)@ == gpio_check(old(cx)@, idx as nat, *g),
        r is Some <==> gpio_complete(*g),
        r matches Some(x) ==> gpio_from(x, *g),
        final(cx)@.errors.len() >= old(cx)@.errors.len(),
        final(cx)@.errors.len() == old(cx)@.errors.len() ==> (r matches Some(x) && gpio_from(x, *g)),
{
    proof {
        lemma_gpio_check(cx@, idx as nat, *g);
    }
    let od = describe_entry(&g.label, idx, "pin", g.pin);
    let label = cx.check_label(&g.label, "gpio", od.as_str());
    cx.require(g.pin.is_some(), "pin", "gpio", od.as_str());
    let mode: Option<GpioMode> = match &g.mode {
        None => {
            let m = missing("gpio", od.as_str(), "mode");
            cx.error(m);
            None
        },
        Some(m) => match GpioMode::from_toml(m.as_str()) {
            Some(md) => Some(md),
            None => {
                let mut e = owned("gpio ");
                push_str(&mut e, od.as_str());
                push_str(&mut e, " has invalid mode '");
                push_str(&mut e, m.as_str());
                push_str(&mut e, "' (expected: input, output, input_pullup, input_pulldown)");
                assert(e@ =~= invalid_mode_msg(od@, m@));
                cx.error(e);
                None
            },
        },
    };
    let interrupt: Option<InterruptEdge> = match &g.interrupt {
        None => None,
        Some(s) => if str_eq(s.as_str(), "none") {
            proof {
                reveal_strlit("none");
                reveal_strlit("rising");
                reveal_strlit("falling");
                reveal_strlit("both");
                assert(s@[0] != "rising"@[0] && s@[0] != "falling"@[0] && s@[0] != "both"@[0]);
                assert(edge_named(s@) is None);
            }
            None
        } else {
            match InterruptEdge::from_toml(s.as_str()) {
                Some(edge) => Some(edge),
                None => {
                    let mut e = owned("gpio ");
                    push_str(&mut e, od.as_str());
                    push_str(&mut e, " has invalid interrupt '");
                    push_str(&mut e, s.as_str());
                    push_str(&mut e, "' (expected: rising, falling, both, none)");
                    assert(e@ =~= invalid_edge_msg(od@, s@));
                    cx.error(e);
                    None
                },
            }
        },
    };
    match &label {
        Some(l) => {
            let mut owner = owned("gpio (pin ");
            let shown: i64 = match g.pin {
                Some(p) => p as i64,
                None => -1,
            };
            push_dec_i64(&mut owner, shown);
            push_str(&mut owner, ")");
            assert(owner@ =~= "gpio (pin "@ + dec_int(shown_pin(g.pin)) + ")"@);
            cx.claim_label(l.as_str(), owner);
        },
        None => {},
    }
    match g.pin {
        Some(p) => {
            let who = name_entry("gpio", &label, idx);
            cx.claim_pin(p, who);
        },
        None => {},
    }
    match (g.pin, mode, label) {
        (Some(pin), Some(mode), Some(label)) => Some(Gpio { pin, mode, label, interrupt }),
        _ => None,
    }
}

/// How a bus device is named in messages: by its label, else by its position
/// on the named bus.
pub open spec fn device_desc(label: Option<Seq<char>>, idx: nat, bus_name: Seq<char>) -> Seq<char> {
    match label {
        Some(l) => quoted(l),
        None => numbered(idx) + " on "@ + bus_name,
    }
}

/// An I2C address outside 7 bits.
pub open spec fn address_range_msg(owner: Seq<char>, a: nat) -> Seq<char> {
    "i2c device "@ + owner + " has address "@ + hex_byte(a)
        + " out of range (must be a 7-bit address, 0x00-0x7F)"@
}

/// An I2C address in a block the I2C specification reserves.
pub open spec fn reserved_address_msg(owner: Seq<char>, a: nat) -> Seq<char> {
    "i2c device "@ + owner + " uses reserved address "@ + hex_byte(a)
        + " (0x00-0x07 and 0x78-0x7F are reserved by the I2C spec)"@
}

/// Reserved 7-bit addresses: `0x00-0x07` and `0x78-0x7F`.
pub open spec fn is_reserved_address(a: u32) -> bool {
    a <= 0x07 || (0x78 <= a && a <= 0x7F)
}

/// The owner recorded for an I2C device's label.
pub open spec fn i2c_device_owner(address: Option<u32>, bus_name: Seq<char>) -> Seq<char> {
    match address {
        Some(a) => "i2c device ("@ + hex_byte(a as nat) + " on "@ + bus_name + ")"@,
        None => "i2c device (on "@ + bus_name + ")"@,
    }
}

/// One `[[i2c.device]]` entry's findings.
pub open spec fn i2c_device_check(f: Findings, idx: nat, d: RawI2cDevice, bus_name: Seq<char>) -> Findings {
    let label = opt_str(d.label);
    let od = device_desc(label, idx, bus_name);
    let lab = usable_label(label);
    let f1 = check_label(f, label, "i2c device"@, od);
    let f2 = require(f1, d.address is Some, "address"@, "i2c device"@, od);
    let f3 = match lab {
        Some(l) => claim_label(f2, l, i2c_device_owner(d.address, bus_name)),
        None => f2,
    };
    match d.address {
        None => f3,
        Some(a) => if a > 0x7F {
            with_error(f3, address_range_msg(od, a as nat))
        } else if is_reserved_address(a) {
            with_warning(f3, reserved_address_msg(od, a as nat))
        } else {
            f3
        },
    }
}

/// The findings of the devices of one I2C bus.
pub open spec fn i2c_device_checks(f: Findings, raw: Seq<RawI2cDevice>, bus_name: Seq<char>) -> Findings
    decreases raw.len(),
{
    if raw.len() == 0 {
        f
    } else {
        i2c_device_check(
            i2c_device_checks(f, raw.drop_last(), bus_name),
            (raw.len() - 1) as nat,
            raw.last(),
            bus_name,
        )
    }
}

/// `x` is the device that the entry `d` describes.
pub open spec fn i2c_device_from(x: I2cDevice, d: RawI2cDevice) -> bool {
    &&& d.address == Some(x.address as u32)
    &&& d.label matches Some(l) && l@ == x.label@ && is_c_identifier(l@)
    &&& opt_str(x.depends_on) == opt_str(d.depends_on)
    &&& x.power_pin == d.power_pin
    &&& x.poll_rate_hz == d.poll_rate_hz
}

/// The part of an `[[i2c]]` entry's findings that precedes its devices.
pub open spec fn i2c_head_check(f: Findings, idx: nat, b: RawI2c) -> Findings {
    let label = opt_str(b.label);
    let od = described(label, idx, "bus"@, b.bus);
    let lab = usable_label(label);
    let f1 = check_label(f, label, "i2c bus"@, od);
    let f2 = require(f1, b.bus is Some, "bus"@, "i2c bus"@, od);
    let f3 = require(f2, b.sda_pin is Some, "sda_pin"@, "i2c bus"@, od);
    let f4 = require(f3, b.scl_pin is Some, "scl_pin"@, "i2c bus"@, od);
    let f5 = require(f4, b.speed_khz is Some, "speed_khz"@, "i2c bus"@, od);
    let name = entry_name("i2c bus"@, lab, idx);
    let f6 = match lab {
        Some(l) => claim_label(f5, l, name),
        None => f5,
    };
    let f7 = claim_pin_opt(f6, b.sda_pin, name + " (SDA)"@);
    claim_pin_opt(f7, b.scl_pin, name + " (SCL)"@)
}

/// One `[[i2c]]` entry's findings, its devices included.
pub open spec fn i2c_check(f: Findings, idx: nat, b: RawI2c) -> Findings {
    i2c_device_checks(
        i2c_head_check(f, idx, b),
        b.devices@,
        entry_name("i2c bus"@, usable_label(opt_str(b.label)), idx),
    )
}

/// The findings of a run of `[[i2c]]` entries.
pub open spec fn i2c_checks(f: Findings, raw: Seq<RawI2c>) -> Findings
    decreases raw.len(),
{
    if raw.len() == 0 {
        f
    } else {
        i2c_check(i2c_checks(f, raw.drop_last()), (raw.len() - 1) as nat, raw.last())
    }
}

/// `x` is the bus that the entry `b` describes, device for device.
pub open spec fn i2c_bus_from(x: I2cBus, b: RawI2c) -> bool {
    &&& b.bus == Some(x.bus)
    &&& b.sda_pin == Some(x.sda_pin)
    &&& b.scl_pin == Some(x.scl_pin)
    &&& b.speed_khz == Some(x.speed_khz)
    &&& b.label matches Some(l) && l@ == x.label@ && is_c_identifier(l@)
    &&& x.devices@.len() == b.devices@.len()
    &&& forall|j: int| 0 <= j < x.devices@.len() ==> #[trigger] i2c_device_from(x.devices@[j], b.devices@[j])
}

/// A copy of an optional string.
fn copy_opt(o: &Option<String>) -> (r: Option<String>)
    ensures
        r == *o,
{
    match o {
        Some(s) => Some(s.clone()),
        None => None,
    }
}

/// Check one `[[i2c.device]]` entry; the device when every field is usable.
fn check_i2c_device(cx: &mut Collector, idx: usize, d: &RawI2cDevice, bus_name: &str) -> (r: Option<I2cDevice>)
    requires
        idx < usize::MAX,
    ensures
        final(cx)@ == i2c_device_check(old(cx)@, idx as nat, *d, bus_name@),
        final(cx)@.errors.len() >= old(cx)@.errors.len(),
        final(cx)@.errors.len() == old(cx)@.errors.len() ==> (r matches Some(x) && i2c_device_from(x, *d)),
{
    let mut od = String::new();
    match &d.label {
        Some(l) => push_quoted(&mut od, l.as_str()),
        None => {
            push_numbered(&mut od, idx);
            push_str(&mut od, " on ");
            push_str(&mut od, bus_name);
        },
    }
    assert(od@ =~= device_desc(opt_str(d.label), idx as nat, bus_name@));
    let label = cx.check_label(&d.label, "i2c device", od.as_str());
    cx.require(d.address.is_some(), "address", "i2c device", od.as_str());
    match &label {
        Some(l) => {
            let mut who = match d.address {
                Some(a) => {
                    let mut w = owned("i2c device (");
                    push_hex_byte(&mut w, a as u64);
                    push_str(&mut w, " on ");
                    w
                },
                None => owned("i2c device (on "),
            };
            push_str(&mut who, bus_name);
            push_str(&mut who, ")");
            assert(who@ =~= i2c_device_owner(d.address, bus_name@));
            cx.claim_label(l.as_str(), who);
        },
        None => {},
    }
    let address: Option<u8> = match d.address {
        None => None,
        Some(a) => if a > 0x7F {
            let mut e = owned("i2c device ");
            push_str(&mut e, od.as_str());
            push_str(&mut e, " has address ");
            push_hex_byte(&mut e, a as u64);
            push_str(&mut e, " out of range (must be a 7-bit address, 0x00-0x7F)");
            assert(e@ =~= address_range_msg(od@, a as nat));
            cx.error(e);
            None
        } else {
            if a <= 0x07 || (0x78 <= a && a <= 0x7F) {
                let mut w = owned("i2c device ");
                push_str(&mut w, od.as_str());
                push_str(&mut w, " uses reserved address ");
                push_hex_byte(&mut w, a as u64);
                push_str(&mut w, " (0x00-0x07 and 0x78-0x7F are reserved by the I2C spec)");
                assert(w@ =~= reserved_address_msg(od@, a as nat));
                cx.warn(w);
            }
            Some(a as u8)
        },
    };
    match (address, label) {
        (Some(address), Some(label)) => Some(
            I2cDevice {
                address,
                label,
                depends_on: copy_opt(&d.depends_on),
                power_pin: d.power_pin,
                poll_rate_hz: d.poll_rate_hz,
            },
        ),
        _ => None,
    }
}

/// Check the devices of one I2C bus, in order.
fn check_i2c_devices(cx: &mut Collector, raw: &Vec<RawI2cDevice>, bus_name: &str) -> (r: Vec<I2cDevice>)
    ensures
        final(cx)@ == i2c_device_checks(old(cx)@, raw@, bus_name@),
        final(cx)@.errors.len() >= old(cx)@.errors.len(),
        final(cx)@.errors.len() == old(cx)@.errors.len() ==> (r@.len() == raw@.len() && forall|k: int|
            0 <= k < raw@.len() ==> #[trigger] i2c_device_from(r@[k], raw@[k])),
{
    let mut out: Vec<I2cDevice> = Vec::new();
    for i in 0..raw.len()
        invariant
            cx@ == i2c_device_checks(old(cx)@, raw@.take(i as int), bus_name@),
            cx@.errors.len() >= old(cx)@.errors.len(),
            cx@.errors.len() == old(cx)@.errors.len() ==> (out@.len() == i && forall|k: int|
                0 <= k < i ==> #[trigger] i2c_device_from(out@[k], raw@[k])),
    {
        proof {
            assert(raw@.take(i + 1).drop_last() =~= raw@.take(i as int));
        }
        let r = check_i2c_device(cx, i, &raw[i], bus_name);
        match r {
            Some(x) => out.push(x),
            None => {},
        }
    }
    proof {
        assert(raw@.take(raw@.len() as int) =~= raw@);
    }
    out
}

/// Check one `[[i2c]]` entry and its devices; the bus when every field is
/// usable.
fn check_i2c(cx: &mut Collector, idx: usize, b: &RawI2c) -> (r: Option<I2cBus>)
    requires
        idx < usize::MAX,
    ensures
        final(cx)@ == i2c_check(old(cx)@, idx as nat, *b),
        final(cx)@.errors.len() >= old(cx)@.errors.len(),
        final(cx)@.errors.len() == old(cx)@.errors.len() ==> (r matches Some(x) && i2c_bus_from(x, *b)),
{
    let od = describe_entry(&b.label, idx, "bus", b.bus);
    let label = cx.check_label(&b.label, "i2c bus", od.as_str());
    cx.require(b.bus.is_some(), "bus", "i2c bus", od.as_str());
    cx.require(b.sda_pin.is_some(), "sda_pin", "i2c bus", od.as_str());
    cx.require(b.scl_pin.is_some(), "scl_pin", "i2c bus", od.as_str());
    cx.require(b.speed_khz.is_some(), "speed_khz", "i2c bus", od.as_str());
    let name = name_entry("i2c bus", &label, idx);
    match &label {
        Some(l) => cx.claim_label(l.as_str(), name.clone()),
        None => {},
    }
    match b.sda_pin {
        Some(p) => cx.claim_pin(p, concat2(name.as_str(), " (SDA)")),
        None => {},
    }
    match b.scl_pin {
        Some(p) => cx.claim_pin(p, concat2(name.as_str(), " (SCL)")),
        None => {},
    }
    assert(cx@ == i2c_head_check(old(cx)@, idx as nat, *b));
    let devices = check_i2c_devices(cx, &b.devices, name.as_str());
    match (b.bus, b.sda_pin, b.scl_pin, b.speed_khz, label) {
        (Some(bus), Some(sda_pin), Some(scl_pin), Some(speed_khz), Some(label)) => Some(
            I2cBus { bus, sda_pin, scl_pin, speed_khz, label, devices },
        ),
        _ => None,
    }
}

/// How an SPI device is named as a claimant.
pub open spec fn spi_device_name(lab: Option<Seq<char>>, idx: nat, bus_name: Seq<char>) -> Seq<char> {
    match lab {
        Some(l) => "spi device "@ + quoted(l),
        None => "spi device "@ + numbered(idx) + " on "@ + bus_name,
    }
}

/// An SPI mode outside `0..=3`.
pub open spec fn spi_mode_msg(owner: Seq<char>, m: u32) -> Seq<char> {
    "spi device "@ + owner + " has invalid mode "@ + dec(m as nat) + " (must be 0, 1, 2, or 3)"@
}

/// The pins the `[[gpio]]` entries declare, in order.
pub open spec fn gpio_pins_of(raw: Seq<RawGpio>) -> Seq<u32>
    decreases raw.len(),
{
    if raw.len() == 0 {
        Seq::empty()
    } else {
        gpio_pins_of(raw.drop_last()) + match raw.last().pin {
            Some(p) => seq![p],
            None => Seq::empty(),
        }
    }
}

/// Claim a chip-select pin, when one is given. A chip select on the pin of
/// a declared GPIO is driven by that GPIO: the pin is already the GPIO's and
/// is not claimed again.
pub open spec fn claim_cs_pin(f: Findings, pin: Option<u32>, owner: Seq<char>, gpio_pins: Seq<u32>) -> Findings {
    match pin {
        Some(p) => if gpio_pins.contains(p) {
            f
        } else {
            claim_pin(f, p, owner)
        },
        None => f,
    }
}

/// One `[[spi.device]]` entry's findings.
pub open spec fn spi_device_check(
    f: Findings,
    idx: nat,
    d: RawSpiDevice,
    bus_name: Seq<char>,
    gpio_pins: Seq<u32>,
) -> Findings {
    let label = opt_str(d.label);
    let od = device_desc(label, idx, bus_name);
    let lab = usable_label(label);
    let f1 = check_label(f, label, "spi device"@, od);
    let f2 = require(f1, d.cs_pin is Some, "cs_pin"@, "spi device"@, od);
    let f3 = require(f2, d.speed_mhz is Some, "speed_mhz"@, "spi device"@, od);
    let name = spi_device_name(lab, idx, bus_name);
    let f4 = match lab {
        Some(l) => claim_label(f3, l, name),
        None => f3,
    };
    let f5 = claim_cs_pin(f4, d.cs_pin, name + " (CS)"@, gpio_pins);
    match d.mode {
        None => with_error(f5, missing_msg("spi device"@, od, "mode"@)),
        Some(m) => if m <= 3 {
            f5
        } else {
            with_error(f5, spi_mode_msg(od, m))
        },
    }
}

/// The findings of the devices of one SPI bus.
pub open spec fn spi_device_checks(
    f: Findings,
    raw: Seq<RawSpiDevice>,
    bus_name: Seq<char>,
    gpio_pins: Seq<u32>,
) -> Findings
    decreases raw.len(),
{
    if raw.len() == 0 {
        f
    } else {
        spi_device_check(
            spi_device_checks(f, raw.drop_last(), bus_name, gpio_pins),
            (raw.len() - 1) as nat,
            raw.last(),
            bus_name,
            gpio_pins,
        )
    }
}

/// `x` is the device that the entry `d` describes.
pub open spec fn spi_device_from(x: SpiDevice, d: RawSpiDevice) -> bool {
    &&& d.cs_pin == Some(x.cs_pin)
    &&& d.label matches Some(l) && l@ == x.label@ && is_c_identifier(l@)
    &&& d.mode == Some(x.mode as u32)
    &&& x.mode <= 3
    &&& d.speed_mhz == Some(x.speed_mhz)
    &&& opt_str(x.depends_on) == opt_str(d.depends_on)
    &&& x.power_pin == d.power_pin
}

/// The part of an `[[spi]]` entry's findings that precedes its devices.
pub open spec fn spi_head_check(f: Findings, idx: nat, b: RawSpi) -> Findings {
    let label = opt_str(b.label);
    let od = described(label, idx, "bus"@, b.bus);
    let lab = usable_label(label);
    let f1 = check_label(f, label, "spi bus"@, od);
    let f2 = require(f1, b.bus is Some, "bus"@, "spi bus"@, od);
    let f3 = require(f2, b.mosi_pin is Some, "mosi_pin"@, "spi bus"@, od);
    let f4 = require(f3, b.miso_pin is Some, "miso_pin"@, "spi bus"@, od);
    let f5 = require(f4, b.sck_pin is Some, "sck_pin"@, "spi bus"@, od);
    let name = entry_name("spi bus"@, lab, idx);
    let f6 = match lab {
        Some(l) => claim_label(f5, l, name),
        None => f5,
    };
    let f7 = claim_pin_opt(f6, b.mosi_pin, name + " (MOSI)"@);
    let f8 = claim_pin_opt(f7, b.miso_pin, name + " (MISO)"@);
    claim_pin_opt(f8, b.sck_pin, name + " (SCK)"@)
}

/// One `[[spi]]` entry's findings, its devices included.
pub open spec fn spi_check(f: Findings, idx: nat, b: RawSpi, gpio_pins: Seq<u32>) -> Findings {
    spi_device_checks(
        spi_head_check(f, idx, b),
        b.devices@,
        entry_name("spi bus"@, usable_label(opt_str(b.label)), idx),
        gpio_pins,
    )
}

/// The findings of a run of `[[spi]]` entries.
pub open spec fn spi_checks(f: Findings, raw: Seq<RawSpi>, gpio_pins: Seq<u32>) -> Findings
    decreases raw.len(),
{
    if raw.len() == 0 {
        f
    } else {
        spi_check(spi_checks(f, raw.drop_last(), gpio_pins), (raw.len() - 1) as nat, raw.last(), gpio_pins)
    }
}

/// `x` is the bus that the entry `b` describes, device for device.
pub open spec fn spi_bus_from(x: SpiBus, b: RawSpi) -> bool {
    &&& b.bus == Some(x.bus)
    &&& b.mosi_pin == Some(x.mosi_pin)
    &&& b.miso_pin == Some(x.miso_pin)
    &&& b.sck_pin == Some(x.sck_pin)
    &&& b.label matches Some(l) && l@ == x.label@ && is_c_identifier(l@)
    &&& x.devices@.len() == b.devices@.len()
    &&& forall|j: int| 0 <= j < x.devices@.len() ==> #[trigger] spi_device_from(x.devices@[j], b.devices@[j])
}

/// One `[[uart]]` entry's findings.
pub open spec fn uart_check(f: Findings, idx: nat, u: RawUart) -> Findings {
    let label = opt_str(u.label);
    let od = described(label, idx, "index"@, u.index);
    let lab = usable_label(label);
    let f1 = check_label(f, label, "uart"@, od);
    let f2 = require(f1, u.index is Some, "index"@, "uart"@, od);
    let f3 = require(f2, u.tx_pin is Some, "tx_pin"@, "uart"@, od);
    let f4 = require(f3, u.rx_pin is Some, "rx_pin"@, "uart"@, od);
    let f5 = require(f4, u.baud is Some, "baud"@, "uart"@, od);
    let name = entry_name("uart"@, lab, idx);
    let f6 = match lab {
        Some(l) => claim_label(f5, l, name),
        None => f5,
    };
    let f7 = claim_pin_opt(f6, u.tx_pin, name + " (TX)"@);
    claim_pin_opt(f7, u.rx_pin, name + " (RX)"@)
}

/// The findings of a run of `[[uart]]` entries.
pub open spec fn uart_checks(f: Findings, raw: Seq<RawUart>) -> Findings
    decreases raw.len(),
{
    if raw.len() == 0 {
        f
    } else {
        uart_check(uart_checks(f, raw.drop_last()), (raw.len() - 1) as nat, raw.last())
    }
}

/// `x` is the UART that the entry `u` describes.
pub open spec fn uart_from(x: Uart, u: RawUart) -> bool {
    &&& u.index == Some(x.index)
    &&& u.tx_pin == Some(x.tx_pin)
    &&& u.rx_pin == Some(x.rx_pin)
    &&& u.baud == Some(x.baud)
    &&& u.label matches Some(l) && l@ == x.label@ && is_c_identifier(l@)
}

/// The pins the `[[gpio]]` entries declare (see [`gpio_pins_of`]).
fn declared_pins(raw: &Vec<RawGpio>) -> (r: Vec<u32>)
    ensures
        r@ == gpio_pins_of(raw@),
{
    let mut out: Vec<u32> = Vec::new();
    for i in 0..raw.len()
        invariant
            out@ == gpio_pins_of(raw@.take(i as int)),
    {
        proof {
            assert(raw@.take(i + 1).drop_last() =~= raw@.take(i as int));
        }
        match raw[i].pin {
            Some(p) => {
                out.push(p);
            },
            None => {},
        }
        proof {
            assert(out@ =~= gpio_pins_of(raw@.take(i + 1)));
        }
    }
    proof {
        assert(raw@.take(raw@.len() as int) =~= raw@);
    }
    out
}

/// Whether `pin` is among `pins`.
fn contains_pin(pins: &Vec<u32>, pin: u32) -> (r: bool)
    ensures
        r == pins@.contains(pin),
{
    for i in 0..pins.len()
        invariant
            forall|k: int| 0 <= k < i ==> pins@[k] != pin,
    {
        if pins[i] == pin {
            return true;
        }
    }
    false
}

/// Check one `[[spi.device]]` entry; the device when every field is usable.
fn check_spi_device(
    cx: &mut Collector,
    idx: usize,
    d: &RawSpiDevice,
    bus_name: &str,
    gpio_pins: &Vec<u32>,
) -> (r: Option<SpiDevice>)
    requires
        idx < usize::MAX,
    ensures
        final(cx)@ == spi_device_check(old(cx)@, idx as nat, *d, bus_name@, gpio_pins@),
        final(cx)@.errors.len() >= old(cx)@.errors.len(),
        final(cx)@.errors.len() == old(cx)@.errors.len() ==> (r matches Some(x) && spi_device_from(x, *d)),
{
    let mut od = String::new();
    match &d.label {
        Some(l) => push_quoted(&mut od, l.as_str()),
        None => {
            push_numbered(&mut od, idx);
            push_str(&mut od, " on ");
            push_str(&mut od, bus_name);
        },
    }
    assert(od@ =~= device_desc(opt_str(d.label), idx as nat, bus_name@));
    let label = cx.check_label(&d.label, "spi device", od.as_str());
    cx.require(d.cs_pin.is_some(), "cs_pin", "spi device", od.as_str());
    cx.require(d.speed_mhz.is_some(), "speed_mhz", "spi device", od.as_str());
    let mut name = owned("spi device ");
    match &label {
        Some(l) => push_quoted(&mut name, l.as_str()),
        None => {
            push_numbered(&mut name, idx);
            push_str(&mut name, " on ");
            push_str(&mut name, bus_name);
        },
    }
    assert(name@ =~= spi_device_name(opt_str(label), idx as nat, bus_name@));
    match &label {
        Some(l) => cx.claim_label(l.as_str(), name.clone()),
        None => {},
    }
    match d.cs_pin {
        Some(p) => if !contains_pin(gpio_pins, p) {
            cx.claim_pin(p, concat2(name.as_str(), " (CS)"));
        },
        None => {},
    }
    let mode: Option<u8> = match d.mode {
        None => {
            let m = missing("spi device", od.as_str(), "mode");
            cx.error(m);
            None
        },
        Some(m) => if m <= 3 {
            Some(m as u8)
        } else {
            let mut e = owned("spi device ");
            push_str(&mut e, od.as_str());
            push_str(&mut e, " has invalid mode ");
            push_dec(&mut e, m as u64);
            push_str(&mut e, " (must be 0, 1, 2, or 3)");
            assert(e@ =~= spi_mode_msg(od@, m));
            cx.error(e);
            None
        },
    };
    match (d.cs_pin, mode, d.speed_mhz, label) {
        (Some(cs_pin), Some(mode), Some(speed_mhz), Some(label)) => Some(
            SpiDevice {
                cs_pin,
                label,
                mode,
                speed_mhz,
                depends_on: copy_opt(&d.depends_on),
                power_pin: d.power_pin,
            },
        ),
        _ => None,
    }
}

/// Check the devices of one SPI bus, in order.
fn check_spi_devices(
    cx: &mut Collector,
    raw: &Vec<RawSpiDevice>,
    bus_name: &str,
    gpio_pins: &Vec<u32>,
) -> (r: Vec<SpiDevice>)
    ensures
        final(cx)@ == spi_device_checks(old(cx)@, raw@, bus_name@, gpio_pins@),
        final(cx)@.errors.len() >= old(cx)@.errors.len(),
        final(cx)@.errors.len() == old(cx)@.errors.len() ==> (r@.len() == raw@.len() && forall|k: int|
            0 <= k < raw@.len() ==> #[trigger] spi_device_from(r@[k], raw@[k])),
{
    let mut out: Vec<SpiDevice> = Vec::new();
    for i in 0..raw.len()
        invariant
            cx@ == spi_device_checks(old(cx)@, raw@.take(i as int), bus_name@, gpio_pins@),
            cx@.errors.len() >= old(cx)@.errors.len(),
            cx@.errors.len() == old(cx)@.errors.len() ==> (out@.len() == i && forall|k: int|
                0 <= k < i ==> #[trigger] spi_device_from(out@[k], raw@[k])),
    {
        proof {
            assert(raw@.take(i + 1).drop_last() =~= raw@.take(i as int));
        }
        let r = check_spi_device(cx, i, &raw[i], bus_name, gpio_pins);
        match r {
            Some(x) => out.push(x),
            None => {},
        }
    }
    proof {
        assert(raw@.take(raw@.len() as int) =~= raw@);
    }
    out
}

/// Check one `[[spi]]` entry and its devices; the bus when every field is
/// usable.
fn check_spi(cx: &mut Collector, idx: usize, b: &RawSpi, gpio_pins: &Vec<u32>) -> (r: Option<SpiBus>)
    requires
        idx < usize::MAX,
    ensures
        final(cx)@ == spi_check(old(cx)@, idx as nat, *b, gpio_pins@),
        final(cx)@.errors.len() >= old(cx)@.errors.len(),
        final(cx)@.errors.len() == old(cx)@.errors.len() ==> (r matches Some(x) && spi_bus_from(x, *b)),
{
    let od = describe_entry(&b.label, idx, "bus", b.bus);
    let label = cx.check_label(&b.label, "spi bus", od.as_str());
    cx.require(b.bus.is_some(), "bus", "spi bus", od.as_str());
    cx.require(b.mosi_pin.is_some(), "mosi_pin", "spi bus", od.as_str());
    cx.require(b.miso_pin.is_some(), "miso_pin", "spi bus", od.as_str());
    cx.require(b.sck_pin.is_some(), "sck_pin", "spi bus", od.as_str());
    let name = name_entry("spi bus", &label, idx);
    match &label {
        Some(l) => cx.claim_label(l.as_str(), name.clone()),
        None => {},
    }
    match b.mosi_pin {
        Some(p) => cx.claim_pin(p, concat2(name.as_str(), " (MOSI)")),
        None => {},
    }
    match b.miso_pin {
        Some(p) => cx.claim_pin(p, concat2(name.as_str(), " (MISO)")),
        None => {},
    }
    match b.sck_pin {
        Some(p) => cx.claim_pin(p, concat2(name.as_str(), " (SCK)")),
        None => {},
    }
    assert(cx@ == spi_head_check(old(cx)@, idx as nat, *b));
    let devices = check_spi_devices(cx, &b.devices, name.as_str(), gpio_pins);
    match (b.bus, b.mosi_pin, b.miso_pin, b.sck_pin, label) {
        (Some(bus), Some(mosi_pin), Some(miso_pin), Some(sck_pin), Some(label)) => Some(
            SpiBus { bus, mosi_pin, miso_pin, sck_pin, label, devices },
        ),
        _ => None,
    }
}

/// Check one `[[uart]]` entry; the UART when every field is usable.
fn check_uart(cx: &mut Collector, idx: usize, u: &RawUart) -> (r: Option<Uart>)
    requires
        idx < usize::MAX,
    ensures
        final(cx)@ == uart_check(old(cx)@, idx as nat, *u),
        final(cx)@.errors.len() >= old(cx)@.errors.len(),
        final(cx)@.errors.len() == old(cx)@.errors.len() ==> (r matches Some(x) && uart_from(x, *u)),
{
    let od = describe_entry(&u.label, idx, "index", u.index);
    let label = cx.check_label(&u.label, "uart", od.as_str());
    cx.require(u.index.is_some(), "index", "uart", od.as_str());
    cx.require(u.tx_pin.is_some(), "tx_pin", "uart", od.as_str());
    cx.require(u.rx_pin.is_some(), "rx_pin", "uart", od.as_str());
    cx.require(u.baud.is_some(), "baud", "uart", od.as_str());
    let name = name_entry("uart", &label, idx);
    match &label {
        Some(l) => cx.claim_label(l.as_str(), name.clone()),
        None => {},
    }
    match u.tx_pin {
        Some(p) => cx.claim_pin(p, concat2(name.as_str(), " (TX)")),
        None => {},
    }
    match u.rx_pin {
        Some(p) => cx.claim_pin(p, concat2(name.as_str(), " (RX)")),
        None => {},
    }
    match (u.index, u.tx_pin, u.rx_pin, u.baud, label) {
        (Some(index), Some(tx_pin), Some(rx_pin), Some(baud), Some(label)) => Some(
            Uart { index, tx_pin, rx_pin, baud, label },
        ),
        _ => None,
    }
}

/// Check the `[[gpio]]` entries, in order.
fn check_gpios(cx: &mut Collector, raw: &Vec<RawGpio>) -> (r: Vec<Gpio>)
    ensures
        final(cx)@ == gpio_checks(old(cx)@, raw@),
        final(cx)@.errors.len() >= old(cx)@.errors.len(),
        final(cx)@.errors.len() == old(cx)@.errors.len() ==> (r@.len() == raw@.len() && forall|k: int|
            0 <= k < raw@.len() ==> #[trigger] gpio_from(r@[k], raw@[k])),
{
    let mut out: Vec<Gpio> = Vec::new();
    for i in 0..raw.len()
        invariant
            cx@ == gpio_checks(old(cx)@, raw@.take(i as int)),
            cx@.errors.len() >= old(cx)@.errors.len(),
            cx@.errors.len() == old(cx)@.errors.len() ==> (out@.len() == i && forall|k: int|
                0 <= k < i ==> #[trigger] gpio_from(out@[k], raw@[k])),
    {
        proof {
            assert(raw@.take(i + 1).drop_last() =~= raw@.take(i as int));
        }
        let r = check_gpio(cx, i, &raw[i]);
        match r {
            Some(x) => out.push(x),
            None => {},
        }
    }
    proof {
        assert(raw@.take(raw@.len() as int) =~= raw@);
    }
    out
}

/// Check the `[[i2c]]` buses, in order.
fn check_i2c_buses(cx: &mut Collector, raw: &Vec<RawI2c>) -> (r: Vec<I2cBus>)
    ensures
        final(cx)@ == i2c_checks(old(cx)@, raw@),
        final(cx)@.errors.len() >= old(cx)@.errors.len(),
        final(cx)@.errors.len() == old(cx)@.errors.len() ==> (r@.len() == raw@.len() && forall|k: int|
            0 <= k < raw@.len() ==> #[trigger] i2c_bus_from(r@[k], raw@[k])),
{
    let mut out: Vec<I2cBus> = Vec::new();
    for i in 0..raw.len()
        invariant
            cx@ == i2c_checks(old(cx)@, raw@.take(i as int)),
            cx@.errors.len() >= old(cx)@.errors.len(),
            cx@.errors.len() == old(cx)@.errors.len() ==> (out@.len() == i && forall|k: int|
                0 <= k < i ==> #[trigger] i2c_bus_from(out@[k], raw@[k])),
    {
        proof {
            assert(raw@.take(i + 1).drop_last() =~= raw@.take(i as int));
        }
        let r = check_i2c(cx, i, &raw[i]);
        match r {
            Some(x) => out.push(x),
            None => {},
        }
    }
    proof {
        assert(raw@.take(raw@.len() as int) =~= raw@);
    }
    out
}

/// Check the `[[spi]]` buses, in order.
fn check_spi_buses(cx: &mut Collector, raw: &Vec<RawSpi>, gpio_pins: &Vec<u32>) -> (r: Vec<SpiBus>)
    ensures
        final(cx)@ == spi_checks(old(cx)@, raw@, gpio_pins@),
        final(cx)@.errors.len() >= old(cx)@.errors.len(),
        final(cx)@.errors.len() == old(cx)@.errors.len() ==> (r@.len() == raw@.len() && forall|k: int|
            0 <= k < raw@.len() ==> #[trigger] spi_bus_from(r@[k], raw@[k])),
{
    let mut out: Vec<SpiBus> = Vec::new();
    for i in 0..raw.len()
        invariant
            cx@ == spi_checks(old(cx)@, raw@.take(i as int), gpio_pins@),
            cx@.errors.len() >= old(cx)@.errors.len(),
            cx@.errors.len() == old(cx)@.errors.len() ==> (out@.len() == i && forall|k: int|
                0 <= k < i ==> #[trigger] spi_bus_from(out@[k], raw@[k])),
    {
        proof {
            assert(raw@.take(i + 1).drop_last() =~= raw@.take(i as int));
        }
        let r = check_spi(cx, i, &raw[i], gpio_pins);
        match r {
            Some(x) => out.push(x),
            None => {},
        }
    }
    proof {
        assert(raw@.take(raw@.len() as int) =~= raw@);
    }
    out
}

/// Check the `[[uart]]` entries, in order.
fn check_uarts(cx: &mut Collector, raw: &Vec<RawUart>) -> (r: Vec<Uart>)
    ensures
        final(cx)@ == uart_checks(old(cx)@, raw@),
        final(cx)@.errors.len() >= old(cx)@.errors.len(),
        final(cx)@.errors.len() == old(cx)@.errors.len() ==> (r@.len() == raw@.len() && forall|k: int|
            0 <= k < raw@.len() ==> #[trigger] uart_from(r@[k], raw@[k])),
{
    let mut out: Vec<Uart> = Vec::new();
    for i in 0..raw.len()
        invariant
            cx@ == uart_checks(old(cx)@, raw@.take(i as int)),
            cx@.errors.len() >= old(cx)@.errors.len(),
            cx@.errors.len() == old(cx)@.errors.len() ==> (out@.len() == i && forall|k: int|
                0 <= k < i ==> #[trigger] uart_from(out@[k], raw@[k])),
    {
        proof {
            assert(raw@.take(i + 1).drop_last() =~= raw@.take(i as int));
        }
        let r = check_uart(cx, i, &raw[i]);
        match r {
            Some(x) => out.push(x),
            None => {},
        }
    }
    proof {
        assert(raw@.take(raw@.len() as int) =~= raw@);
    }
    out
}

/// Everything validation finds in a document, in the order the checks run:
/// the `[board]` table, then the GPIOs, I2C buses, SPI buses and UARTs, each
/// entry in declaration order.
pub open spec fn findings(raw: RawConfig) -> Findings {
    uart_checks(
        spi_checks(
            i2c_checks(gpio_checks(board_checks(raw.board), raw.gpio@), raw.i2c@),
            raw.spi@,
            gpio_pins_of(raw.gpio@),
        ),
        raw.uart@,
    )
}

/// The document declares no peripheral at all.
pub open spec fn declares_nothing(raw: RawConfig) -> bool {
    raw.gpio@.len() == 0 && raw.i2c@.len() == 0 && raw.spi@.len() == 0 && raw.uart@.len() == 0
}

/// The warning for a board without peripherals.
pub open spec fn empty_board_warning() -> Seq<char> {
    "board defines no peripherals; generated files will be empty stubs"@
}

/// The warnings reported with a valid board.
pub open spec fn validation_warnings(raw: RawConfig) -> Seq<Seq<char>> {
    if declares_nothing(raw) {
        findings(raw).warnings.push(empty_board_warning())
    } else {
        findings(raw).warnings
    }
}

/// `b` is the board that `raw` describes, entry for entry.
pub open spec fn board_from(b: Board, raw: RawConfig) -> bool {
    &&& raw.board.name matches Some(n) && n@ == b.name@
    &&& raw.board.mcu matches Some(m) && m@ == b.mcu@
    &&& raw.board.clock_mhz == Some(b.clock_mhz)
    &&& b.gpios@.len() == raw.gpio@.len()
    &&& forall|i: int| 0 <= i < b.gpios@.len() ==> #[trigger] gpio_from(b.gpios@[i], raw.gpio@[i])
    &&& b.i2c_buses@.len() == raw.i2c@.len()
    &&& forall|i: int| 0 <= i < b.i2c_buses@.len() ==> #[trigger] i2c_bus_from(b.i2c_buses@[i], raw.i2c@[i])
    &&& b.spi_buses@.len() == raw.spi@.len()
    &&& forall|i: int| 0 <= i < b.spi_buses@.len() ==> #[trigger] spi_bus_from(b.spi_buses@[i], raw.spi@[i])
    &&& b.uarts@.len() == raw.uart@.len()
    &&& forall|i: int| 0 <= i < b.uarts@.len() ==> #[trigger] uart_from(b.uarts@[i], raw.uart@[i])
}

/// Check the `[board]` table; its name, MCU and clock (empty or zero where
/// absent).
fn check_board(cx: &mut Collector, b: &RawBoard) -> (r: (String, String, u32))
    requires
        old(cx)@ == no_findings(),
    ensures
        final(cx)@ == board_checks(*b),
        final(cx)@.errors.len() == 0 ==> opt_str(b.name) == Some(r.0@),
        final(cx)@.errors.len() == 0 ==> opt_str(b.mcu) == Some(r.1@),
        final(cx)@.errors.len() == 0 ==> b.clock_mhz == Some(r.2),
{
    let name = match &b.name {
        Some(n) => n.clone(),
        None => {
            cx.error(owned("[board] is missing required field 'name'"));
            String::new()
        },
    };
    let mcu = match &b.mcu {
        Some(m) => m.clone(),
        None => {
            cx.error(owned("[board] is missing required field 'mcu'"));
            String::new()
        },
    };
    let clock_mhz = match b.clock_mhz {
        Some(c) => c,
        None => {
            cx.error(owned("[board] is missing required field 'clock_mhz'"));
            0
        },
    };
    if clock_mhz == 0 && b.clock_mhz.is_some() {
        cx.warn(owned("[board].clock_mhz is 0; baud-rate timing in generated code may be wrong"));
    }
    (name, mcu, clock_mhz)
}

/// Validate a parsed config, producing a [`Board`] or a list of every error.
///
/// On success the returned [`Validated`] may still carry warnings. On failure
/// the `Err` holds *all* discovered errors, in the order the document is
/// checked (see [`findings`]).
pub fn validate(raw: RawConfig) -> (r: Result<Validated, Vec<ValidationError>>)
    ensures
        r is Ok <==> findings(raw).errors.len() == 0,
        r is Ok <==> exists|b: Board| describes_sound_board(raw, b),
        r matches Ok(v) ==> board_from(v.board, raw) && string_views(v.warnings@) == validation_warnings(raw),
        r matches Ok(v) ==> board_pins(v.board).no_duplicates() && board_labels(&v.board).no_duplicates(),
        r matches Err(es) ==> messages(es@) == findings(raw).errors,
{
    let mut cx = Collector::new();
    let (name, mcu, clock_mhz) = check_board(&mut cx, &raw.board);
    let ghost e0 = cx@.errors.len();
    let gpios = check_gpios(&mut cx, &raw.gpio);
    let ghost e1 = cx@.errors.len();
    let i2c_buses = check_i2c_buses(&mut cx, &raw.i2c);
    let ghost e2 = cx@.errors.len();
    let gpio_pins = declared_pins(&raw.gpio);
    let spi_buses = check_spi_buses(&mut cx, &raw.spi, &gpio_pins);
    let ghost e3 = cx@.errors.len();
    let uarts = check_uarts(&mut cx, &raw.uart);
    if cx.errors.len() > 0 {
        proof {
            if exists|b: Board| describes_sound_board(raw, b) {
                let b = choose|b: Board| describes_sound_board(raw, b);
                lemma_sound_board_validates(raw, b);
            }
        }
        return Err(cx.errors);
    }
    let board = Board { name, mcu, clock_mhz, gpios, i2c_buses, spi_buses, uarts };
    assert(board_from(board, raw));
    proof {
        lemma_validated_claims_distinct(raw, board);
        assert(describes_sound_board(raw, board));
    }
    if board.is_empty() {
        cx.warn(owned("board defines no peripherals; generated files will be empty stubs"));
    }
    Ok(Validated { board, warnings: cx.warnings })
}

} // verus!
