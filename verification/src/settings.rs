//! User settings and credential resolution.
//!
//! Settings can hold an OpenAI key and model plus default build options, but
//! are never required: every value has a sensible fallback, and the API key
//! can also come from the environment or a flag.
//!
//! Credential precedence (highest first): explicit flag, then environment
//! variable, then config file. Empty values never shadow a later source.

use vstd::prelude::*;
use crate::text::{chars_of, dec, owned, opt_str, push_char, push_dec, push_str, str_eq};

verus! {

/// The default OpenAI model when none is configured.
pub const DEFAULT_MODEL: &'static str = "gpt-4o-mini";

/// The default backend when none is configured.
pub const DEFAULT_BACKEND: &'static str = "c";

/// The default output directory when none is configured.
pub const DEFAULT_OUTPUT: &'static str = "./output";

/// Persistent user settings, all optional.
#[derive(Debug, Clone, PartialEq, Eq)]
pub struct Settings {
    /// OpenAI API key (prefer the environment or a `.env` for this).
    pub openai_api_key: Option<String>,
    /// OpenAI model id.
    pub openai_model: Option<String>,
    /// Default backend for `build`.
    pub default_backend: Option<String>,
    /// Default output directory for `build`.
    pub default_output: Option<String>,
}

impl Default for Settings {
    fn default() -> (r: Self)
        ensures
            r.openai_api_key is None,
            r.openai_model is None,
            r.default_backend is None,
            r.default_output is None,
    {
        Settings { openai_api_key: None, openai_model: None, default_backend: None, default_output: None }
    }
}

/// `part` added to the path `base` as one more component (`part` being
/// relative): a `/` goes between them unless `base` is empty or already ends
/// in one.
pub open spec fn joined(base: Seq<char>, part: Seq<char>) -> Seq<char> {
    if base.len() == 0 || base.last() == '/' {
        base + part
    } else {
        base + seq!['/'] + part
    }
}

/// The directory holding Forge's config file, from `$XDG_CONFIG_HOME` and
/// `$HOME` (each as read, when set).
pub open spec fn config_dir_text(xdg: Option<Seq<char>>, home: Option<Seq<char>>) -> Seq<char> {
    match pick(xdg, None) {
        Some(x) => joined(x, "forge"@),
        None => joined(joined(or_default(home, "."@), ".config"@), "forge"@),
    }
}

/// Append `part` to the path in `s` as one more component.
fn push_component(s: &mut String, part: &str)
    ensures
        final(s)@ == joined(old(s)@, part@),
{
    let cs = chars_of(s.as_str());
    let n = cs.len();
    if n > 0 && cs[n - 1] != '/' {
        push_char(s, '/');
    }
    push_str(s, part);
    assert(final(s)@ =~= joined(old(s)@, part@));
}

/// The directory holding Forge's config file: `$XDG_CONFIG_HOME/forge` when
/// that is set and non-empty, else `$HOME/.config/forge` (`.` standing in for
/// an unset home). The environment is read by the caller.
pub fn config_dir(xdg: Option<&str>, home: Option<&str>) -> (r: String)
    ensures
        r@ == config_dir_text(opt_view(xdg), opt_view(home)),
{
    match non_empty(xdg) {
        Some(x) => {
            let mut d = owned(x);
            push_component(&mut d, "forge");
            d
        },
        None => {
            let mut d = match home {
                Some(h) => owned(h),
                None => owned("."),
            };
            push_component(&mut d, ".config");
            push_component(&mut d, "forge");
            d
        },
    }
}

/// The full path to Forge's `config.toml` (see [`config_dir`]).
pub fn config_path(xdg: Option<&str>, home: Option<&str>) -> (r: String)
    ensures
        r@ == joined(config_dir_text(opt_view(xdg), opt_view(home)), "config.toml"@),
{
    let mut p = config_dir(xdg, home);
    push_component(&mut p, "config.toml");
    p
}

/// The characters of an optional string slice.
pub open spec fn opt_view(o: Option<&str>) -> Option<Seq<char>> {
    match o {
        Some(s) => Some(s@),
        None => None,
    }
}

/// `a` when it is present and non-empty, else `rest`.
pub open spec fn pick(a: Option<Seq<char>>, rest: Option<Seq<char>>) -> Option<Seq<char>> {
    match a {
        Some(s) => if s.len() > 0 {
            a
        } else {
            rest
        },
        None => rest,
    }
}

/// The value if there is one, else the default.
pub open spec fn or_default(o: Option<Seq<char>>, default: Seq<char>) -> Seq<char> {
    match o {
        Some(s) => s,
        None => default,
    }
}

/// The value, when it is present and non-empty.
fn non_empty<'a>(value: Option<&'a str>) -> (r: Option<&'a str>)
    ensures
        opt_view(r) == pick(opt_view(value), None),
{
    match value {
        Some(s) => if s.is_empty() {
            None
        } else {
            Some(s)
        },
        None => None,
    }
}

/// A copy of a stored value, when it is present and non-empty.
fn stored(value: &Option<String>) -> (r: Option<String>)
    ensures
        opt_str(r) == pick(opt_str(*value), None),
{
    match value {
        Some(s) => if s.as_str().is_empty() {
            None
        } else {
            Some(s.clone())
        },
        None => None,
    }
}

/// Resolve the OpenAI API key by precedence: flag, then env, then config file.
///
/// `env` is passed in (rather than read here) so the logic is pure.
pub fn resolve_api_key(cli: Option<&str>, env: Option<&str>, settings: &Settings) -> (r: Option<String>)
    ensures
        opt_str(r) == pick(opt_view(cli), pick(opt_view(env), pick(opt_str(settings.openai_api_key), None))),
{
    match non_empty(cli) {
        Some(s) => Some(owned(s)),
        None => match non_empty(env) {
            Some(s) => Some(owned(s)),
            None => stored(&settings.openai_api_key),
        },
    }
}

/// Resolve the OpenAI model by precedence: flag, then env, then config file,
/// then [`DEFAULT_MODEL`].
pub fn resolve_model(cli: Option<&str>, env: Option<&str>, settings: &Settings) -> (r: String)
    ensures
        r@ == or_default(
            pick(opt_view(cli), pick(opt_view(env), pick(opt_str(settings.openai_model), None))),
            DEFAULT_MODEL@,
        ),
{
    match non_empty(cli) {
        Some(s) => owned(s),
        None => match non_empty(env) {
            Some(s) => owned(s),
            None => match stored(&settings.openai_model) {
                Some(s) => s,
                None => owned(DEFAULT_MODEL),
            },
        },
    }
}

/// Resolve the default backend: flag, then config file, then
/// [`DEFAULT_BACKEND`].
pub fn resolve_backend(cli: Option<&str>, settings: &Settings) -> (r: String)
    ensures
        r@ == or_default(pick(opt_view(cli), pick(opt_str(settings.default_backend), None)), DEFAULT_BACKEND@),
{
    match non_empty(cli) {
        Some(s) => owned(s),
        None => match stored(&settings.default_backend) {
            Some(s) => s,
            None => owned(DEFAULT_BACKEND),
        },
    }
}

/// Resolve the default output dir: flag, then config file, then
/// [`DEFAULT_OUTPUT`].
pub fn resolve_output(cli: Option<&str>, settings: &Settings) -> (r: String)
    ensures
        r@ == or_default(pick(opt_view(cli), pick(opt_str(settings.default_output), None)), DEFAULT_OUTPUT@),
{
    match non_empty(cli) {
        Some(s) => owned(s),
        None => match stored(&settings.default_output) {
            Some(s) => s,
            None => owned(DEFAULT_OUTPUT),
        },
    }
}

/// The masked form of a secret: fully masked up to ten characters, else the
/// first six and the last four characters around an ellipsis, and the length.
pub open spec fn redacted(secret: Seq<char>) -> Seq<char> {
    let n = secret.len();
    if n <= 10 {
        "********"@
    } else {
        secret.subrange(0, 6) + "\u{2026}"@ + secret.subrange(n - 4, n as int) + " ("@ + dec(n) + " chars)"@
    }
}

/// Mask a secret for display, revealing only a short prefix and suffix.
pub fn redact(secret: &str) -> (r: String)
    ensures
        r@ == redacted(secret@),
{
    let cs = chars_of(secret);
    let n = cs.len();
    if n <= 10 {
        return owned("********");
    }
    let mut s = String::new();
    for i in 0..6
        invariant
            n == cs@.len(),
            n > 10,
            s@ == cs@.subrange(0, i as int),
    {
        push_char(&mut s, cs[i]);
        assert(s@ =~= cs@.subrange(0, i + 1));
    }
    push_str(&mut s, "\u{2026}");
    let ghost mid = s@;
    for i in n - 4..n
        invariant
            n == cs@.len(),
            n > 10,
            n - 4 <= i <= n,
            s@ == mid + cs@.subrange(n - 4, i as int),
    {
        push_char(&mut s, cs[i]);
        assert(s@ =~= mid + cs@.subrange(n - 4, i + 1));
    }
    push_str(&mut s, " (");
    push_dec(&mut s, n as u64);
    push_str(&mut s, " chars)");
    assert(s@ =~= redacted(secret@));
    s
}

/// The error for trying to set the API key as a plain field.
pub open spec fn key_field_msg() -> Seq<char> {
    "set the API key with `forge config set-key` (reads stdin) so it stays out of shell history"@
}

/// The error for a field that does not exist.
pub open spec fn unknown_field_msg(field: Seq<char>) -> Seq<char> {
    "unknown field '"@ + field + "' (choose: model, backend, output)"@
}

/// Set a non-secret field (`model`, `backend` or `output`, or their full
/// names). The API key is refused here so that it stays out of shell history.
pub fn set_field(settings: &mut Settings, field: &str, value: String) -> (r: Result<(), String>)
    ensures
        (field@ == "model"@ || field@ == "openai_model"@) ==> r is Ok && opt_str(final(settings).openai_model)
            == Some(value@) && final(settings).openai_api_key == old(settings).openai_api_key
            && final(settings).default_backend == old(settings).default_backend && final(settings).default_output
            == old(settings).default_output,
        (field@ == "backend"@ || field@ == "default_backend"@) ==> r is Ok && opt_str(final(settings).default_backend)
            == Some(value@) && final(settings).openai_api_key == old(settings).openai_api_key
            && final(settings).openai_model == old(settings).openai_model && final(settings).default_output
            == old(settings).default_output,
        (field@ == "output"@ || field@ == "default_output"@) ==> r is Ok && opt_str(final(settings).default_output)
            == Some(value@) && final(settings).openai_api_key == old(settings).openai_api_key
            && final(settings).openai_model == old(settings).openai_model && final(settings).default_backend
            == old(settings).default_backend,
        (field@ == "key"@ || field@ == "api_key"@ || field@ == "openai_api_key"@) ==> (r matches Err(e) && e@
            == key_field_msg()),
        !(field@ == "model"@ || field@ == "openai_model"@ || field@ == "backend"@ || field@ == "default_backend"@
            || field@ == "output"@ || field@ == "default_output"@ || field@ == "key"@ || field@ == "api_key"@
            || field@ == "openai_api_key"@) ==> (r matches Err(e) && e@ == unknown_field_msg(field@)),
        r is Err ==> *final(settings) == *old(settings),
{
    proof {
        reveal_strlit("model");
        reveal_strlit("openai_model");
        reveal_strlit("backend");
        reveal_strlit("default_backend");
        reveal_strlit("output");
        reveal_strlit("default_output");
        reveal_strlit("key");
        reveal_strlit("api_key");
        reveal_strlit("openai_api_key");
        assert("api_key"@[0] != "backend"@[0]);
        assert("openai_api_key"@[0] != "default_output"@[0]);
        assert("backend"@.len() != "model"@.len() && "backend"@.len() != "openai_model"@.len());
        assert("default_backend"@.len() != "model"@.len() && "default_backend"@.len() != "openai_model"@.len());
        assert("output"@.len() != "model"@.len() && "output"@.len() != "openai_model"@.len());
        assert("output"@.len() != "backend"@.len() && "output"@.len() != "default_backend"@.len());
        assert("default_output"@[0] != "model"@[0] && "default_output"@.len() != "openai_model"@.len());
        assert("default_output"@[0] != "backend"@[0] && "default_output"@.len() != "default_backend"@.len());
    }
    if str_eq(field, "model") || str_eq(field, "openai_model") {
        settings.openai_model = Some(value);
        Ok(())
    } else if str_eq(field, "backend") || str_eq(field, "default_backend") {
        settings.default_backend = Some(value);
        Ok(())
    } else if str_eq(field, "output") || str_eq(field, "default_output") {
        settings.default_output = Some(value);
        Ok(())
    } else if str_eq(field, "key") || str_eq(field, "api_key") || str_eq(field, "openai_api_key") {
        Err(owned("set the API key with `forge config set-key` (reads stdin) so it stays out of shell history"))
    } else {
        let mut m = owned("unknown field '");
        push_str(&mut m, field);
        push_str(&mut m, "' (choose: model, backend, output)");
        Err(m)
    }
}

} // verus!
