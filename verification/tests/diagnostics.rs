use mold_macho::error::{
    checkpoint, demangle, error, fatal, has_error, set_color, set_demangle, set_fatal_warnings,
    set_suppress_warnings, warn, Diagnostics,
};
use mold_macho::util::demangle::{demangle_cpp, display_name};

#[test]
fn errors_are_recorded_and_stop_at_the_checkpoint() {
    let mut d = Diagnostics::new();
    assert!(!has_error(&d));
    assert!(!checkpoint(&d));
    assert_eq!(error(&mut d), "mold: error: ");
    assert!(has_error(&d));
    assert!(checkpoint(&d));
    // Nothing clears it.
    set_color(&mut d, true);
    assert_eq!(warn(&mut d), Some("mold: \x1b[0;1;35mwarning:\x1b[0m "));
    assert!(checkpoint(&d));
}

#[test]
fn warnings_do_not_stop_the_link() {
    let mut d = Diagnostics::new();
    assert_eq!(warn(&mut d), Some("mold: warning: "));
    assert!(!checkpoint(&d));
}

#[test]
fn fatal_warnings_are_errors() {
    let mut d = Diagnostics::new();
    set_fatal_warnings(&mut d, true);
    assert_eq!(warn(&mut d), Some("mold: error: "));
    assert!(checkpoint(&d));
}

#[test]
fn suppressed_warnings_print_nothing() {
    let mut d = Diagnostics::new();
    set_suppress_warnings(&mut d, true);
    set_fatal_warnings(&mut d, true);
    assert_eq!(warn(&mut d), None);
    assert!(!has_error(&d));
}

#[test]
fn colored_prefixes() {
    let mut d = Diagnostics::new();
    assert_eq!(fatal(&d), "mold: fatal: ");
    set_color(&mut d, true);
    assert_eq!(fatal(&d), "mold: \x1b[0;1;31mfatal:\x1b[0m ");
    assert_eq!(error(&mut d), "mold: \x1b[0;1;31merror:\x1b[0m ");
}

#[test]
fn demangles_only_when_asked() {
    let mut d = Diagnostics::new();
    let name = "__ZN5space3fooEibc";
    assert_eq!(demangle(&d, name), name);
    assert_eq!(display_name(&d, name), name);
    set_demangle(&mut d, true);
    assert_eq!(demangle(&d, name), "space::foo(int, bool, char)");
    assert_eq!(display_name(&d, name), "space::foo(int, bool, char)");
    // C names and names that do not parse stay as they are.
    assert_eq!(demangle(&d, "_main"), "_main");
    assert_eq!(display_name(&d, "_main"), "_main");
    assert_eq!(demangle(&d, "__Zgarbage"), "__Zgarbage");
    assert_eq!(display_name(&d, "__Zgarbage"), "__Zgarbage");
    assert_eq!(display_name(&d, ""), "");
}

#[test]
fn demangle_cpp_needs_the_itanium_prefix() {
    assert_eq!(demangle_cpp(b"_Z3foov"), Some("foo()".to_owned()));
    assert_eq!(demangle_cpp(b"foo"), None);
    assert_eq!(demangle_cpp(b"_Z"), None);
}
