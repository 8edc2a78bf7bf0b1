//! Symbol name demangling for diagnostics.

use vstd::prelude::*;
use vstd::string::StringSliceAdditionalSpecFns;
use vstd::utf8::encode_utf8;
use crate::error::Diagnostics;
use crate::util::bytes::{has_prefix, starts_with};

verus! {

/// What `cpp_demangle` makes of a mangled Itanium C++ ABI name with the
/// default parse and demangle options: the demangled text, or `None`
/// when it does not parse or does not demangle.
pub uninterp spec fn itanium_demangled(mangled: Seq<u8>) -> Option<Seq<char>>;

/// Demangles an Itanium C++ ABI name.
///
/// Calls `cpp_demangle::Symbol::new` on the bytes and, when that parses,
/// `Symbol::demangle` with `DemangleOptions::default()`; either error
/// gives `None`. Both calls read only the bytes and the default options,
/// so the outcome is named by `itanium_demangled`.
#[verifier::external_body]
pub(crate) fn demangle_itanium(mangled: &[u8]) -> (r: Option<String>)
    ensures
        r matches Some(s) ==> itanium_demangled(mangled@) == Some(s@),
        r is None ==> itanium_demangled(mangled@) is None,
{
    let sym = cpp_demangle::Symbol::new(mangled).ok()?;
    sym.demangle(&cpp_demangle::DemangleOptions::default()).ok()
}

/// "_Z": the prefix of an Itanium C++ ABI name.
pub open spec fn itanium_prefix() -> Seq<u8> {
    seq![0x5fu8, 0x5a]
}

/// The demangled form of `name` if it is an Itanium C++ ABI name that
/// demangles.
pub open spec fn demangled_cpp(name: Seq<u8>) -> Option<Seq<char>> {
    if has_prefix(name, itanium_prefix()) {
        itanium_demangled(name)
    } else {
        None
    }
}

/// Demangles an Itanium C++ ABI symbol name, if `name` is one.
pub fn demangle_cpp(name: &[u8]) -> (r: Option<String>)
    ensures
        r matches Some(s) ==> demangled_cpp(name@) == Some(s@),
        r is None ==> demangled_cpp(name@) is None,
{
    let z: [u8; 2] = [0x5f, 0x5a];
    assert(z@ == itanium_prefix());
    if !starts_with(name, z.as_slice()) {
        return None;
    }
    demangle_itanium(name)
}

/// How diagnostics spell the symbol `name`: demangled when demangling is
/// on and the name, without the leading underscore Mach-O adds to every
/// C-level name, is an Itanium name that demangles; the name itself
/// otherwise.
pub open spec fn display_text(enabled: bool, name: Seq<char>) -> Seq<char> {
    let b = encode_utf8(name);
    if enabled && b.len() > 0 && b[0] == 0x5f && demangled_cpp(b.skip(1)) is Some {
        demangled_cpp(b.skip(1)).unwrap()
    } else {
        name
    }
}

/// A Mach-O symbol name as diagnostics spell it: demangled when
/// -demangle is in effect. Mach-O prefixes every C-level name with an
/// underscore, so an Itanium name reads `__Z...` here; symbol lookup and
/// output always use the original spelling.
pub fn display_name(diag: &Diagnostics, name: &str) -> (r: String)
    ensures
        r@ == display_text(diag.demangle, name@),
{
    let b = name.as_bytes();
    if diag.demangle && b.len() > 0 && b[0] == 0x5f {
        let rest = &b[1..b.len()];
        assert(rest@ == b@.skip(1));
        if let Some(demangled) = demangle_cpp(rest) {
            return demangled;
        }
    }
    name.to_owned()
}

} // verus!
