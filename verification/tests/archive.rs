use mold_macho::archive_file::{archive_members, read_archive_members};
use mold_macho::mapped_file::{load_method, LoadMethod, MappedFile, READ_THRESHOLD};

/// An archive member header: the name field, then mtime, uid, gid and
/// mode, then the size and the terminator.
fn header(name: &[u8], size: usize) -> Vec<u8> {
    let mut h = Vec::new();
    let mut n = name.to_vec();
    n.resize(16, b' ');
    h.extend_from_slice(&n);
    h.extend_from_slice(b"0           ");
    h.extend_from_slice(b"0     ");
    h.extend_from_slice(b"0     ");
    h.extend_from_slice(b"644     ");
    let mut s = format!("{}", size).into_bytes();
    s.resize(10, b' ');
    h.extend_from_slice(&s);
    h.extend_from_slice(b"`\n");
    assert_eq!(h.len(), 60);
    h
}

/// Appends a member; odd-sized bodies are padded so that the next
/// header starts at an even offset.
fn member(out: &mut Vec<u8>, name: &[u8], body: &[u8]) {
    out.extend_from_slice(&header(name, body.len()));
    out.extend_from_slice(body);
    if body.len() % 2 != 0 {
        out.push(b'\n');
    }
}

fn leak_file(name: &str, data: Vec<u8>) -> &'static MappedFile {
    let data: &'static [u8] = Box::leak(data.into_boxed_slice());
    Box::leak(Box::new(MappedFile { name: name.to_owned(), data, parent: None }))
}

fn bsd_archive() -> Vec<u8> {
    let mut a = b"!<arch>\n".to_vec();
    member(&mut a, b"#1/20", b"__.SYMDEF SORTED\0\0\0\0SYMS");
    member(&mut a, b"#1/12", b"long_name.obHELLO");
    member(&mut a, b"#1/8", b"a.o\0\0\0\0\0xy");
    a
}

fn sysv_archive() -> Vec<u8> {
    let mut a = b"!<arch>\n".to_vec();
    member(&mut a, b"/", b"\0\0\0\0");
    member(&mut a, b"//", b"very_long_member_name.o/\nother.o/\n");
    member(&mut a, b"/0", b"XYZ");
    member(&mut a, b"/25", b"12");
    member(&mut a, b"short.o/", b"1234");
    member(&mut a, b"/SYM64/", b"\0\0\0\0\0\0\0\0");
    a
}

#[test]
fn bsd_long_names_and_symdef() {
    let data = bsd_archive();
    let members = archive_members(&data);
    let got: Vec<(String, &[u8])> =
        members.iter().map(|m| (m.name.clone(), &data[m.start..m.start + m.size])).collect();
    assert_eq!(got, vec![("long_name.ob".to_owned(), &b"HELLO"[..]), ("a.o".to_owned(), &b"xy"[..])]);
}

#[test]
fn sysv_long_names_and_tables() {
    let data = sysv_archive();
    let members = archive_members(&data);
    let got: Vec<(String, &[u8])> =
        members.iter().map(|m| (m.name.clone(), &data[m.start..m.start + m.size])).collect();
    assert_eq!(
        got,
        vec![
            ("very_long_member_name.o".to_owned(), &b"XYZ"[..]),
            ("other.o".to_owned(), &b"12"[..]),
            ("short.o".to_owned(), &b"1234"[..]),
        ]
    );
}

#[test]
fn short_names_are_trimmed() {
    let mut a = b"!<arch>\n".to_vec();
    member(&mut a, b"plain.o", b"p");
    member(&mut a, b"x.o/  ", b"q");
    let members = archive_members(&a);
    let names: Vec<String> = members.iter().map(|m| m.name.clone()).collect();
    assert_eq!(names, vec!["plain.o".to_owned(), "x.o".to_owned()]);
}

#[test]
fn invalid_utf8_names_are_replaced() {
    let mut a = b"!<arch>\n".to_vec();
    member(&mut a, b"#1/4", b"a\xffb\0body");
    let members = archive_members(&a);
    assert_eq!(members.len(), 1);
    assert_eq!(members[0].name, "a\u{fffd}b");
    assert_eq!(&a[members[0].start..members[0].start + members[0].size], b"body");
}

#[test]
fn sysv_offset_past_the_table_gives_an_empty_name() {
    let mut a = b"!<arch>\n".to_vec();
    member(&mut a, b"//", b"n.o/\n");
    member(&mut a, b"/99", b"zz");
    let members = archive_members(&a);
    assert_eq!(members.len(), 1);
    assert_eq!(members[0].name, "");
}

#[test]
fn truncated_members_are_cut_at_the_end() {
    let mut a = b"!<arch>\n".to_vec();
    a.extend_from_slice(&header(b"cut.o/", 100));
    a.extend_from_slice(b"only this");
    let members = archive_members(&a);
    assert_eq!(members.len(), 1);
    assert_eq!(&a[members[0].start..members[0].start + members[0].size], b"only this");
}

#[test]
fn empty_and_short_archives() {
    assert!(archive_members(b"!<arch>\n").is_empty());
    assert!(archive_members(b"!<arch>\nx").is_empty());
    let mut a = b"!<arch>\n".to_vec();
    a.extend_from_slice(&header(b"partial", 3)[..40]);
    assert!(archive_members(&a).is_empty());
}

#[test]
fn members_are_named_after_the_archive() {
    let mf = leak_file("libfoo.a", bsd_archive());
    let files = read_archive_members(mf);
    assert_eq!(files.len(), 2);
    assert_eq!(files[0].name, "libfoo.a(long_name.ob)");
    assert_eq!(files[0].data(), b"HELLO");
    assert_eq!(files[0].size(), 5);
    assert!(std::ptr::eq(files[0].parent.unwrap(), mf));
    assert_eq!(files[1].name, "libfoo.a(a.o)");
    assert_eq!(files[1].data(), b"xy");
}

#[test]
fn slice_views_part_of_a_file() {
    let mf = leak_file("fat", b"0123456789".to_vec());
    let s = mf.slice("part".to_owned(), 2, 5);
    assert_eq!(s.data(), b"23456");
    assert_eq!(s.name, "part");
    assert_eq!(mf.size(), 10);
}

#[test]
fn small_files_are_read_and_large_ones_mapped() {
    assert_eq!(load_method(0), LoadMethod::Empty);
    assert_eq!(load_method(1), LoadMethod::Read);
    assert_eq!(load_method(READ_THRESHOLD), LoadMethod::Read);
    assert_eq!(READ_THRESHOLD, 32768);
    assert_eq!(load_method(READ_THRESHOLD + 1), LoadMethod::Mapped);
    assert_eq!(load_method(u64::MAX), LoadMethod::Mapped);
}

#[test]
fn opened_members_match_the_listed_members() {
    for bytes in [bsd_archive(), sysv_archive()] {
        let mf = leak_file("lib.a", bytes);
        let members = archive_members(mf.data());
        let files = read_archive_members(mf);
        assert_eq!(files.len(), members.len());
        for (file, m) in files.iter().zip(&members) {
            assert_eq!(file.name, format!("lib.a({})", m.name));
            assert_eq!(file.data(), &mf.data()[m.start..m.start + m.size]);
            // A view into the archive, not a copy.
            assert_eq!(file.data().as_ptr(), mf.data()[m.start..].as_ptr());
            assert!(std::ptr::eq(file.parent.unwrap(), mf));
        }
    }
}
