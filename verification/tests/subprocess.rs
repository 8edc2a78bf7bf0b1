use mold_macho::subprocess::{parent_exit, ParentExit};

#[test]
fn parent_succeeds_when_the_child_reports() {
    assert_eq!(parent_exit(true, 0), ParentExit::Exit(0));
    assert_eq!(parent_exit(true, 9), ParentExit::Exit(0));
}

#[test]
fn parent_mirrors_the_child_exit_code() {
    assert_eq!(parent_exit(false, 0), ParentExit::Exit(0));
    assert_eq!(parent_exit(false, 3 << 8), ParentExit::Exit(3));
    assert_eq!(parent_exit(false, 0xff << 8), ParentExit::Exit(255));
}

#[test]
fn parent_dies_of_the_child_signal() {
    assert_eq!(parent_exit(false, 9), ParentExit::Raise(9));
    assert_eq!(parent_exit(false, 11 | 0x80), ParentExit::Raise(11));
}

#[test]
fn parent_fails_for_a_stopped_child() {
    assert_eq!(parent_exit(false, 0x7f | (19 << 8)), ParentExit::Exit(1));
}
