//! Error, warning and fatal-error reporting.
//!
//! Errors don't abort the link immediately: the linker keeps going so that
//! all problems are reported in one run, then exits before writing the
//! output. Fatal errors are for conditions the linker can't continue past.
//!
//! The diagnostic settings and the error state are one value,
//! `Diagnostics`. Each report returns the prefix its message is printed
//! with (or `None` for a suppressed warning); printing, and exiting after a
//! fatal error or at a failed checkpoint, are the program's part.

use vstd::prelude::*;
use vstd::string::StringSliceAdditionalSpecFns;
use vstd::utf8::encode_utf8;
use crate::util::bytes::{has_prefix, starts_with};
use crate::util::demangle::{demangle_itanium, itanium_demangled};

verus! {

/// The diagnostic settings and whether an error has been reported.
pub struct Diagnostics {
    pub color: bool,
    pub fatal_warnings: bool,
    pub suppress_warnings: bool,
    pub demangle: bool,
    pub has_error: bool,
}

impl Diagnostics {
    /// Monochrome, warnings reported as warnings, names as written, and
    /// no error yet.
    pub fn new() -> (r: Diagnostics)
        ensures
            !r.color && !r.fatal_warnings && !r.suppress_warnings && !r.demangle && !r.has_error,
    {
        Diagnostics {
            color: false,
            fatal_warnings: false,
            suppress_warnings: false,
            demangle: false,
            has_error: false,
        }
    }
}

pub fn set_color(diag: &mut Diagnostics, on: bool)
    ensures
        *final(diag) == (Diagnostics { color: on, ..*old(diag) }),
{
    diag.color = on;
}

pub fn set_fatal_warnings(diag: &mut Diagnostics, on: bool)
    ensures
        *final(diag) == (Diagnostics { fatal_warnings: on, ..*old(diag) }),
{
    diag.fatal_warnings = on;
}

pub fn set_suppress_warnings(diag: &mut Diagnostics, on: bool)
    ensures
        *final(diag) == (Diagnostics { suppress_warnings: on, ..*old(diag) }),
{
    diag.suppress_warnings = on;
}

pub fn set_demangle(diag: &mut Diagnostics, on: bool)
    ensures
        *final(diag) == (Diagnostics { demangle: on, ..*old(diag) }),
{
    diag.demangle = on;
}

/// "__Z": an Itanium C++ ABI name with Mach-O's leading underscore.
pub open spec fn mangled_prefix() -> Seq<u8> {
    seq![0x5fu8, 0x5f, 0x5a]
}

/// A diagnostic spelling only: symbol lookup and output use the
/// original name. Mach-O adds an underscore to the Itanium ABI name.
pub open spec fn demangled_text(enabled: bool, name: Seq<char>) -> Seq<char> {
    let b = encode_utf8(name);
    if enabled && has_prefix(b, mangled_prefix()) && itanium_demangled(b.skip(1)) is Some {
        itanium_demangled(b.skip(1)).unwrap()
    } else {
        name
    }
}

/// The name as diagnostics spell it (see `demangled_text`).
pub fn demangle(diag: &Diagnostics, name: &str) -> (r: String)
    ensures
        r@ == demangled_text(diag.demangle, name@),
{
    let b = name.as_bytes();
    let p: [u8; 3] = [0x5f, 0x5f, 0x5a];
    assert(p@ == mangled_prefix());
    if diag.demangle && starts_with(b, p.as_slice()) {
        let rest = &b[1..b.len()];
        assert(rest@ == b@.skip(1));
        if let Some(text) = demangle_itanium(rest) {
            return text;
        }
    }
    name.to_owned()
}

pub fn has_error(diag: &Diagnostics) -> (r: bool)
    ensures
        r == diag.has_error,
{
    diag.has_error
}

/// The kinds of message.
pub enum Severity {
    Fatal,
    Error,
    Warning,
}

/// The prefix a message of kind `sev` is printed with, in color or not.
pub open spec fn prefix_text(sev: Severity, color: bool) -> Seq<char> {
    match sev {
        Severity::Fatal => if color {
            "mold: \x1b[0;1;31mfatal:\x1b[0m "@
        } else {
            "mold: fatal: "@
        },
        Severity::Error => if color {
            "mold: \x1b[0;1;31merror:\x1b[0m "@
        } else {
            "mold: error: "@
        },
        Severity::Warning => if color {
            "mold: \x1b[0;1;35mwarning:\x1b[0m "@
        } else {
            "mold: warning: "@
        },
    }
}

/// Chooses between the monochrome and the colored prefix.
fn emit(diag: &Diagnostics, prefix_mono: &'static str, prefix_color: &'static str) -> (r: &'static str)
    ensures
        r@ == if diag.color { prefix_color@ } else { prefix_mono@ },
{
    if diag.color {
        prefix_color
    } else {
        prefix_mono
    }
}

/// Reports an unrecoverable error: returns the prefix to print the
/// message with, after which the process exits with status 1.
pub fn fatal(diag: &Diagnostics) -> (r: &'static str)
    ensures
        r@ == prefix_text(Severity::Fatal, diag.color),
{
    emit(diag, "mold: fatal: ", "mold: \x1b[0;1;31mfatal:\x1b[0m ")
}

/// Reports an error: returns the prefix to print the message with, and
/// records that an error happened.
pub fn error(diag: &mut Diagnostics) -> (r: &'static str)
    ensures
        r@ == prefix_text(Severity::Error, old(diag).color),
        *final(diag) == (Diagnostics { has_error: true, ..*old(diag) }),
{
    let r = emit(diag, "mold: error: ", "mold: \x1b[0;1;31merror:\x1b[0m ");
    diag.has_error = true;
    r
}

/// The state after a warning: a promoted warning is an error.
pub open spec fn after_warning(d: Diagnostics) -> Diagnostics {
    if !d.suppress_warnings && d.fatal_warnings {
        Diagnostics { has_error: true, ..d }
    } else {
        d
    }
}

/// The prefix a warning is printed with: none when warnings are
/// suppressed, the error prefix when they are fatal.
pub open spec fn warning_prefix(d: Diagnostics) -> Option<Seq<char>> {
    if d.suppress_warnings {
        None
    } else if d.fatal_warnings {
        Some(prefix_text(Severity::Error, d.color))
    } else {
        Some(prefix_text(Severity::Warning, d.color))
    }
}

/// Reports a warning: `None` when warnings are suppressed. With
/// `-fatal_warnings` it is promoted to an error.
pub fn warn(diag: &mut Diagnostics) -> (r: Option<&'static str>)
    ensures
        r is None <==> warning_prefix(*old(diag)) is None,
        r matches Some(p) ==> warning_prefix(*old(diag)) == Some(p@),
        *final(diag) == after_warning(*old(diag)),
{
    if diag.suppress_warnings {
        return None;
    }
    if diag.fatal_warnings {
        let r = emit(diag, "mold: error: ", "mold: \x1b[0;1;31merror:\x1b[0m ");
        diag.has_error = true;
        Some(r)
    } else {
        Some(emit(diag, "mold: warning: ", "mold: \x1b[0;1;35mwarning:\x1b[0m "))
    }
}

/// Whether the process must now exit with a failure status: it must
/// when any error has been reported.
pub fn checkpoint(diag: &Diagnostics) -> (r: bool)
    ensures
        r == diag.has_error,
{
    has_error(diag)
}

// ---------------------------------------------------------------------
// What holds over a whole run.

/// A change of the diagnostic state: a setting, or a report.
pub enum DiagEvent {
    SetColor(bool),
    SetFatalWarnings(bool),
    SetSuppressWarnings(bool),
    SetDemangle(bool),
    Error,
    Warning,
}

/// The state after one event, as the functions above leave it.
pub open spec fn after_event(d: Diagnostics, e: DiagEvent) -> Diagnostics {
    match e {
        DiagEvent::SetColor(on) => Diagnostics { color: on, ..d },
        DiagEvent::SetFatalWarnings(on) => Diagnostics { fatal_warnings: on, ..d },
        DiagEvent::SetSuppressWarnings(on) => Diagnostics { suppress_warnings: on, ..d },
        DiagEvent::SetDemangle(on) => Diagnostics { demangle: on, ..d },
        DiagEvent::Error => Diagnostics { has_error: true, ..d },
        DiagEvent::Warning => after_warning(d),
    }
}

/// The state after a sequence of events.
pub open spec fn after_events(d: Diagnostics, evs: Seq<DiagEvent>) -> Diagnostics
    decreases evs.len(),
{
    if evs.len() == 0 {
        d
    } else {
        after_event(after_events(d, evs.drop_last()), evs.last())
    }
}

/// The event reports an error in state `d`: an error, or a warning while
/// warnings are fatal and not suppressed.
pub open spec fn reports_error(d: Diagnostics, e: DiagEvent) -> bool {
    match e {
        DiagEvent::Error => true,
        DiagEvent::Warning => d.fatal_warnings && !d.suppress_warnings,
        _ => false,
    }
}

/// Some event of `evs` reports an error in the state it meets.
pub open spec fn some_error_reported(d: Diagnostics, evs: Seq<DiagEvent>) -> bool {
    exists|i: int| 0 <= i < evs.len() && #[trigger] reports_error(after_events(d, evs.take(i)), evs[i])
}

proof fn lemma_event_has_error(s: Diagnostics, e: DiagEvent)
    ensures
        after_event(s, e).has_error == (s.has_error || reports_error(s, e)),
{
}

/// A checkpoint stops the link exactly when an error was reported
/// before it: an error, or a warning made fatal by -fatal_warnings (and
/// not suppressed). Nothing clears a reported error.
pub proof fn lemma_checkpoint_stops_iff_error_reported(d: Diagnostics, evs: Seq<DiagEvent>)
    ensures
        after_events(d, evs).has_error <==> (d.has_error || some_error_reported(d, evs)),
        d.has_error ==> after_events(d, evs).has_error,
    decreases evs.len(),
{
    if evs.len() > 0 {
        let init = evs.drop_last();
        let n = evs.len() - 1;
        lemma_checkpoint_stops_iff_error_reported(d, init);
        let s = after_events(d, init);
        lemma_event_has_error(s, evs.last());
        assert(evs.take(n) == init);
        assert(evs[n] == evs.last());
        if some_error_reported(d, init) {
            let i = choose|i: int|
                0 <= i < init.len() && #[trigger] reports_error(after_events(d, init.take(i)), init[i]);
            assert(evs.take(i) == init.take(i));
            assert(evs[i] == init[i]);
            assert(reports_error(after_events(d, evs.take(i)), evs[i]));
        }
        if reports_error(s, evs.last()) {
            assert(reports_error(after_events(d, evs.take(n)), evs[n]));
        }
        if some_error_reported(d, evs) {
            let i = choose|i: int|
                0 <= i < evs.len() && #[trigger] reports_error(after_events(d, evs.take(i)), evs[i]);
            if i < n {
                assert(evs.take(i) == init.take(i));
                assert(evs[i] == init[i]);
                assert(reports_error(after_events(d, init.take(i)), init[i]));
            }
        }
    }
}

} // verus!
