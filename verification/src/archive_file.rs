//! Reading archive files (.a files).
//!
//! An archive file is just a bundle of object files. It's similar to
//! tar or zip, but the contents are not compressed.
//!
//! If an archive file is given to the linker, the linker pulls out
//! object files that are needed to resolve undefined symbols. So,
//! bunding object files as an archive and giving that archive to the
//! linker has a different meaning than directly giving the same set of
//! object files to the linker. The former links only needed object
//! files, while the latter links all the given object files.
//!
//! A Mach-O archive is the common ar format. Apple's ar uses the BSD
//! long-name convention - a member name of "#1/<len>" means the real
//! name is the first <len> bytes of the member body - and prepends a
//! __.SYMDEF index member, which a linker that parses every member
//! eagerly can simply skip. GNU ar's SysV long names are accepted too.

use vstd::prelude::*;
use vstd::string::StringSliceAdditionalSpecFns;
use vstd::utf8::{decode_utf8, encode_utf8, valid_utf8};
use crate::mapped_file::MappedFile;
use crate::util::bytes::{has_prefix, starts_with};

verus! {

/// The size of an archive member header.
pub const HEADER_SIZE: usize = 60;

// ---------------------------------------------------------------------
// The text of header fields.

/// ASCII whitespace as `u8::is_ascii_whitespace` defines it.
pub open spec fn is_ascii_ws(b: u8) -> bool {
    b == 0x20 || b == 0x09 || b == 0x0a || b == 0x0c || b == 0x0d
}

/// An ASCII decimal digit.
pub open spec fn is_ascii_digit(b: u8) -> bool {
    0x30 <= b <= 0x39
}

/// The number of whitespace bytes `s` starts with.
pub open spec fn leading_ws(s: Seq<u8>) -> nat
    decreases s.len(),
{
    if s.len() > 0 && is_ascii_ws(s[0]) {
        1 + leading_ws(s.drop_first())
    } else {
        0
    }
}

/// `acc` followed by the decimal digits `s` starts with.
pub open spec fn digits_from(s: Seq<u8>, acc: nat) -> nat
    decreases s.len(),
{
    if s.len() > 0 && is_ascii_digit(s[0]) {
        digits_from(s.drop_first(), acc * 10 + (s[0] - 0x30) as nat)
    } else {
        acc
    }
}

/// The number a header field spells: its leading decimal digits after
/// any whitespace, zero if there are none (as `atoi` reads it).
pub open spec fn decimal_field(s: Seq<u8>) -> nat {
    digits_from(s.skip(leading_ws(s) as int), 0)
}

/// 10 to the power `n`.
pub open spec fn pow10(n: nat) -> nat
    decreases n,
{
    if n == 0 {
        1
    } else {
        10 * pow10((n - 1) as nat)
    }
}

proof fn lemma_pow10_monotone(i: nat, j: nat)
    requires
        i <= j,
    ensures
        1 <= pow10(i) <= pow10(j),
    decreases j,
{
    if i < j {
        lemma_pow10_monotone(i, (j - 1) as nat);
    } else if j > 0 {
        lemma_pow10_monotone((j - 1) as nat, (j - 1) as nat);
    }
}

/// Parses the leading decimal digits of a field, like `atoi`.
fn parse_decimal(bytes: &[u8]) -> (r: u64)
    requires
        bytes@.len() <= 19,
    ensures
        r == decimal_field(bytes@),
        r < pow10(bytes@.len()),
{
    let len = bytes.len();
    let ghost s = bytes@;
    let mut i: usize = 0;
    assert(s.skip(0) == s);
    while i < len && (bytes[i] == 0x20 || bytes[i] == 0x09 || bytes[i] == 0x0a || bytes[i] == 0x0c
        || bytes[i] == 0x0d)
        invariant
            len == s.len(),
            s == bytes@,
            i <= len,
            leading_ws(s) == i + leading_ws(s.skip(i as int)),
        decreases len - i,
    {
        assert(s.skip(i as int).drop_first() == s.skip(i + 1));
        i = i + 1;
    }
    proof {
        if i < len {
            assert(s.skip(i as int)[0] == s[i as int]);
        }
        assert(leading_ws(s.skip(i as int)) == 0);
    }
    let start = i;
    let mut acc: u64 = 0;
    while i < len && 0x30 <= bytes[i] && bytes[i] <= 0x39
        invariant
            len == s.len(),
            s == bytes@,
            len <= 19,
            start <= i <= len,
            leading_ws(s) == start,
            digits_from(s.skip(i as int), acc as nat) == decimal_field(s),
            acc < pow10((i - start) as nat),
        decreases len - i,
    {
        let d = (bytes[i] - 0x30) as u64;
        proof {
            assert(s.skip(i as int).drop_first() == s.skip(i + 1));
            assert(s.skip(i as int)[0] == s[i as int]);
            lemma_pow10_monotone((i - start) as nat, 18);
            assert(pow10(18) == 1000000000000000000) by {
                reveal_with_fuel(pow10, 19);
            }
            assert(acc * 10 + d < pow10((i + 1 - start) as nat)) by (nonlinear_arith)
                requires
                    acc < pow10((i - start) as nat),
                    d < 10,
                    pow10((i + 1 - start) as nat) == 10 * pow10((i - start) as nat);
        }
        acc = acc * 10 + d;
        i = i + 1;
    }
    proof {
        if i < len {
            assert(s.skip(i as int)[0] == s[i as int]);
        }
        lemma_pow10_monotone((i - start) as nat, len as nat);
    }
    acc
}

/// The index of the first `b` in `s`, or the length of `s` if there is
/// none.
pub open spec fn index_of_byte(s: Seq<u8>, b: u8) -> int
    decreases s.len(),
{
    if s.len() == 0 {
        0
    } else if s[0] == b {
        0
    } else {
        1 + index_of_byte(s.drop_first(), b)
    }
}

proof fn lemma_index_of_byte(s: Seq<u8>, b: u8, i: int)
    requires
        0 <= i <= s.len(),
        forall|j: int| 0 <= j < i ==> s[j] != b,
        i == s.len() || s[i] == b,
    ensures
        index_of_byte(s, b) == i,
    decreases s.len(),
{
    if s.len() > 0 && i > 0 {
        let t = s.drop_first();
        assert forall|j: int| 0 <= j < i - 1 implies t[j] != b by {
            assert(t[j] == s[j + 1]);
        }
        if i < s.len() {
            assert(t[i - 1] == s[i]);
        }
        lemma_index_of_byte(t, b, i - 1);
    }
}

/// The position of the first `b` in `s`, or its length.
fn find_byte(s: &[u8], b: u8) -> (r: usize)
    ensures
        r == index_of_byte(s@, b),
        r <= s@.len(),
{
    let n = s.len();
    let mut i: usize = 0;
    while i < n && s[i] != b
        invariant
            n == s@.len(),
            i <= n,
            forall|j: int| 0 <= j < i ==> s@[j] != b,
        decreases n - i,
    {
        i = i + 1;
    }
    proof {
        lemma_index_of_byte(s@, b, i as int);
    }
    i
}

/// `s` without its trailing ASCII whitespace.
pub open spec fn trim_ws_end(s: Seq<u8>) -> Seq<u8>
    decreases s.len(),
{
    if s.len() > 0 && is_ascii_ws(s.last()) {
        trim_ws_end(s.drop_last())
    } else {
        s
    }
}

/// The length of `s` without its trailing ASCII whitespace.
fn trimmed_len(s: &[u8]) -> (r: usize)
    ensures
        r <= s@.len(),
        trim_ws_end(s@) == s@.subrange(0, r as int),
{
    let mut n = s.len();
    assert(s@.subrange(0, n as int) == s@);
    while n > 0 && (s[n - 1] == 0x20 || s[n - 1] == 0x09 || s[n - 1] == 0x0a || s[n - 1] == 0x0c
        || s[n - 1] == 0x0d)
        invariant
            n <= s@.len(),
            trim_ws_end(s@) == trim_ws_end(s@.subrange(0, n as int)),
        decreases n,
    {
        assert(s@.subrange(0, n as int).drop_last() == s@.subrange(0, n - 1));
        n = n - 1;
    }
    n
}

/// The first position at or after `i` where `needle` occurs in `hay`.
pub open spec fn find_from(hay: Seq<u8>, needle: Seq<u8>, i: int) -> Option<int>
    decreases hay.len() - i,
{
    if i < 0 || i + needle.len() > hay.len() {
        None
    } else if hay.subrange(i, i + needle.len()) == needle {
        Some(i)
    } else if i >= hay.len() {
        // Unreachable: an empty needle matches at every position.
        None
    } else {
        find_from(hay, needle, i + 1)
    }
}

/// The first position where `needle` occurs in `hay`.
pub open spec fn first_occurrence(hay: Seq<u8>, needle: Seq<u8>) -> Option<int> {
    find_from(hay, needle, 0)
}

/// Searches `haystack` for `needle`.
///
/// Calls `memchr::memmem::find`, which returns the index of the first
/// occurrence of `needle` in `haystack`, or `None` when there is none. The
/// contract states exactly that.
#[verifier::external_body]
fn memmem_find(haystack: &[u8], needle: &[u8]) -> (r: Option<usize>)
    ensures
        r matches Some(i) ==> first_occurrence(haystack@, needle@) == Some(i as int),
        r is None ==> first_occurrence(haystack@, needle@) is None,
{
    memchr::memmem::find(haystack, needle)
}

/// The text `String::from_utf8_lossy` makes of some bytes: the bytes
/// decoded as UTF-8, each invalid sequence replaced by U+FFFD.
pub uninterp spec fn utf8_lossy(bytes: Seq<u8>) -> Seq<char>;

/// The text a name's bytes stand for: the text they encode when they are
/// valid UTF-8, their lossy decoding otherwise.
pub open spec fn name_text(bytes: Seq<u8>) -> Seq<char> {
    if valid_utf8(bytes) {
        decode_utf8(bytes)
    } else {
        utf8_lossy(bytes)
    }
}

/// Decodes bytes as UTF-8, replacing invalid sequences.
///
/// Calls `String::from_utf8_lossy` and takes ownership of its result. The
/// result is a function of the bytes alone, named by `utf8_lossy`; std
/// documents that bytes that are valid UTF-8 come back as the text they
/// encode, unchanged.
#[verifier::external_body]
fn string_from_utf8_lossy(bytes: &[u8]) -> (r: String)
    ensures
        r@ == utf8_lossy(bytes@),
        valid_utf8(bytes@) ==> r@ == decode_utf8(bytes@),
{
    String::from_utf8_lossy(bytes).into_owned()
}

// ---------------------------------------------------------------------
// Member headers.

/// "#1/": a BSD-style long name follows the header.
pub open spec fn bsd_name_prefix() -> Seq<u8> {
    seq![0x23u8, 0x31, 0x2f]
}

/// "// ": the SysV string table member.
pub open spec fn strtab_prefix() -> Seq<u8> {
    seq![0x2fu8, 0x2f, 0x20]
}

/// "/ ": the SysV symbol table member.
pub open spec fn symtab_prefix() -> Seq<u8> {
    seq![0x2fu8, 0x20]
}

/// "/SYM64/ ": the SysV 64-bit symbol table member.
pub open spec fn symtab64_prefix() -> Seq<u8> {
    seq![0x2fu8, 0x53, 0x59, 0x4d, 0x36, 0x34, 0x2f, 0x20]
}

/// "/\n": the terminator of a name in the SysV string table.
pub open spec fn sysv_name_end() -> Seq<u8> {
    seq![0x2fu8, 0x0a]
}

/// "__.SYMDEF": the prefix of the BSD symbol table members.
pub open spec fn symdef_prefix() -> Seq<u8> {
    seq![0x5fu8, 0x5f, 0x2e, 0x53, 0x59, 0x4d, 0x44, 0x45, 0x46]
}

/// The name of a member whose 16-byte header name field is `field`,
/// given the SysV string table read so far and the member's body, with
/// the number of body bytes the name takes (a BSD-style long name is
/// stored at the start of the body).
pub open spec fn member_name(field: Seq<u8>, strtab: Seq<u8>, body: Seq<u8>) -> (Seq<char>, int) {
    if has_prefix(field, bsd_name_prefix()) {
        let len = decimal_field(field.skip(3));
        let k = if len <= body.len() { len as int } else { body.len() as int };
        let raw = body.take(k);
        (name_text(raw.take(index_of_byte(raw, 0))), k)
    } else if has_prefix(field, seq![0x2fu8]) {
        let off = decimal_field(field.skip(1));
        let start = if off <= strtab.len() { strtab.skip(off as int) } else { Seq::<u8>::empty() };
        let end = match first_occurrence(start, sysv_name_end()) {
            Some(i) => i,
            None => start.len() as int,
        };
        (name_text(start.take(end)), 0)
    } else {
        (name_text(trim_ws_end(field.take(index_of_byte(field, 0x2f)))), 0)
    }
}

/// A parsed archive member header.
struct ArHeader<'a> {
    name: &'a [u8],
    size: u64,
}

impl<'a> ArHeader<'a> {
    fn parse(bytes: &'a [u8]) -> (r: Option<ArHeader<'a>>)
        ensures
            r is Some <==> bytes@.len() >= HEADER_SIZE,
            r matches Some(h) ==> h.name@ == bytes@.subrange(0, 16) && h.size == decimal_field(
                bytes@.subrange(48, 58),
            ) && h.size < 10_000_000_000,
    {
        if bytes.len() < HEADER_SIZE {
            return None;
        }
        let size = parse_decimal(&bytes[48..58]);
        assert(pow10(10) == 10_000_000_000) by {
            reveal_with_fuel(pow10, 11);
        }
        Some(ArHeader { name: &bytes[0..16], size })
    }

    fn is_strtab(&self) -> (r: bool)
        ensures
            r == has_prefix(self.name@, strtab_prefix()),
    {
        let p: [u8; 3] = [0x2f, 0x2f, 0x20];
        assert(p@ == strtab_prefix());
        starts_with(self.name, p.as_slice())
    }

    fn is_symtab(&self) -> (r: bool)
        ensures
            r == (has_prefix(self.name@, symtab_prefix()) || has_prefix(self.name@, symtab64_prefix())),
    {
        let p: [u8; 2] = [0x2f, 0x20];
        let q: [u8; 8] = [0x2f, 0x53, 0x59, 0x4d, 0x36, 0x34, 0x2f, 0x20];
        assert(p@ == symtab_prefix());
        assert(q@ == symtab64_prefix());
        starts_with(self.name, p.as_slice()) || starts_with(self.name, q.as_slice())
    }

    /// Returns the member's file name and the number of body bytes the
    /// name occupies: a BSD-style long name is stored right after the
    /// header, so the member's contents start after it.
    fn read_name(&self, strtab: &[u8], body: &[u8]) -> (r: (String, usize))
        requires
            self.name@.len() == 16,
        ensures
            (r.0@, r.1 as int) == member_name(self.name@, strtab@, body@),
    {
        // BSD-style long filename
        let bsd: [u8; 3] = [0x23, 0x31, 0x2f];
        assert(bsd@ == bsd_name_prefix());
        if starts_with(self.name, bsd.as_slice()) {
            let len = parse_decimal(&self.name[3..16]);
            assert(self.name@.subrange(3, 16) == self.name@.skip(3));
            let k: usize = if len <= body.len() as u64 { len as usize } else { body.len() };
            let raw = &body[0..k];
            let end = find_byte(raw, 0);
            return (string_from_utf8_lossy(&raw[0..end]), k);
        }
        // SysV-style long filename
        let slash: [u8; 1] = [0x2f];
        assert(slash@ == seq![0x2fu8]);
        if starts_with(self.name, slash.as_slice()) {
            let offset = parse_decimal(&self.name[1..16]);
            assert(self.name@.subrange(1, 16) == self.name@.skip(1));
            let start: &[u8] = if offset <= strtab.len() as u64 {
                &strtab[offset as usize..strtab.len()]
            } else {
                &strtab[0..0]
            };
            assert(offset > strtab@.len() ==> start@ == Seq::<u8>::empty());
            let term: [u8; 2] = [0x2f, 0x0a];
            assert(term@ == sysv_name_end());
            let end = match memmem_find(start, term.as_slice()) {
                Some(i) => i,
                None => start.len(),
            };
            proof {
                if let Some(i) = first_occurrence(start@, sysv_name_end()) {
                    lemma_find_from_bound(start@, sysv_name_end(), 0);
                }
            }
            return (string_from_utf8_lossy(&start[0..end]), 0);
        }
        // Short filename, space-padded and (in the SysV form) slash-terminated.
        let end = find_byte(self.name, 0x2f);
        let field = &self.name[0..end];
        let n = trimmed_len(field);
        (string_from_utf8_lossy(&field[0..n]), 0)
    }
}

proof fn lemma_find_from_bound(hay: Seq<u8>, needle: Seq<u8>, i: int)
    ensures
        find_from(hay, needle, i) matches Some(j) ==> i <= j && j + needle.len() <= hay.len(),
    decreases hay.len() - i,
{
    if !(i < 0 || i + needle.len() > hay.len()) && hay.subrange(i, i + needle.len()) != needle && i
        < hay.len() {
        lemma_find_from_bound(hay, needle, i + 1);
    }
}

// ---------------------------------------------------------------------
// Walking the members.

/// A member of an archive: its name and where its contents lie in the
/// archive's bytes.
pub struct ArchiveMember {
    pub name: String,
    pub start: usize,
    pub size: usize,
}

impl View for ArchiveMember {
    type V = (Seq<char>, int, int);

    open spec fn view(&self) -> (Seq<char>, int, int) {
        (self.name@, self.start as int, self.size as int)
    }
}

/// The members of the archive `data` found from offset `pos` on, as
/// (name, start, size), with `strtab` the SysV string table read so far.
/// Each header sits at an even offset; the walk ends when fewer than two
/// bytes, or less than a whole header, remain. A member's size is cut at
/// the end of the file. The string table, the symbol tables and BSD
/// __.SYMDEF members are not members of their own.
pub open spec fn members_from(data: Seq<u8>, pos: int, strtab: Seq<u8>) -> Seq<(Seq<char>, int, int)>
    decreases data.len() - pos,
{
    if pos < 0 || pos > data.len() || data.len() - pos < 2 {
        Seq::empty()
    } else {
        let p = if pos % 2 != 0 { pos + 1 } else { pos };
        if data.len() - p < HEADER_SIZE {
            Seq::empty()
        } else {
            let field = data.subrange(p, p + 16);
            let size = decimal_field(data.subrange(p + 48, p + 58));
            let body_start = p + HEADER_SIZE;
            let body_end = if body_start + size <= data.len() {
                body_start + size
            } else {
                data.len() as int
            };
            let body = data.subrange(body_start, body_end);
            if has_prefix(field, strtab_prefix()) {
                members_from(data, body_end, body)
            } else if has_prefix(field, symtab_prefix()) || has_prefix(field, symtab64_prefix()) {
                members_from(data, body_end, strtab)
            } else {
                let named = member_name(field, strtab, body);
                if has_prefix(encode_utf8(named.0), symdef_prefix()) {
                    members_from(data, body_end, strtab)
                } else {
                    seq![(named.0, body_start + named.1, body_end - (body_start + named.1))]
                        + members_from(data, body_end, strtab)
                }
            }
        }
    }
}

/// The members of the archive `data`, whose first header follows the
/// 8-byte magic.
pub open spec fn archive_member_list(data: Seq<u8>) -> Seq<(Seq<char>, int, int)> {
    members_from(data, 8, Seq::empty())
}

/// The views of a list of members.
pub open spec fn member_views(v: Seq<ArchiveMember>) -> Seq<(Seq<char>, int, int)> {
    v.map_values(|m: ArchiveMember| m@)
}

/// Lists the members of an archive, skipping the symbol table and
/// string table.
pub fn archive_members(data: &[u8]) -> (r: Vec<ArchiveMember>)
    requires
        8 <= data@.len() <= isize::MAX,
    ensures
        member_views(r@) == archive_member_list(data@),
        forall|i: int|
            0 <= i < r@.len() ==> r@[i].start + r@[i].size <= data@.len(),
{
    let len = data.len();
    let mut pos: usize = 8;
    let mut strtab: &[u8] = &data[0..0];
    let mut out: Vec<ArchiveMember> = Vec::new();
    assert(strtab@ == Seq::<u8>::empty());
    assert(member_views(out@) == Seq::<(Seq<char>, int, int)>::empty());
    assert(member_views(out@) + members_from(data@, 8, strtab@) == archive_member_list(data@));
    loop
        invariant
            len == data@.len(),
            len <= isize::MAX,
            8 <= pos <= len,
            member_views(out@) + members_from(data@, pos as int, strtab@) == archive_member_list(
                data@,
            ),
            forall|i: int| 0 <= i < out@.len() ==> out@[i].start + out@[i].size <= len,
        decreases len - pos,
    {
        let ghost pos0 = pos as int;
        let ghost strtab0 = strtab@;
        if len - pos < 2 {
            assert(members_from(data@, pos as int, strtab@) == Seq::<(Seq<char>, int, int)>::empty());
            assert(member_views(out@) == archive_member_list(data@));
            return out;
        }
        // Each header is aligned to a 2 byte boundary.
        if pos % 2 != 0 {
            pos = pos + 1;
        }
        let hdr = match ArHeader::parse(&data[pos..len]) {
            Some(h) => h,
            None => {
                assert(members_from(data@, pos0, strtab0) == Seq::<(Seq<char>, int, int)>::empty());
                assert(member_views(out@) == archive_member_list(data@));
                return out;
            },
        };
        assert(data@.subrange(pos as int, len as int).subrange(0, 16) == data@.subrange(
            pos as int,
            pos + 16,
        ));
        assert(data@.subrange(pos as int, len as int).subrange(48, 58) == data@.subrange(
            pos + 48,
            pos + 58,
        ));
        let body_start = pos + HEADER_SIZE;
        let body_end: usize = if (body_start as u64) + hdr.size <= len as u64 {
            body_start + hdr.size as usize
        } else {
            len
        };
        let body = &data[body_start..body_end];
        pos = body_end;
        // Read a string table.
        if hdr.is_strtab() {
            strtab = body;
            continue;
        }
        // Skip a symbol table.
        if hdr.is_symtab() {
            continue;
        }
        // Read the name field
        let (name, k) = hdr.read_name(strtab, body);
        // Skip BSD archive symbol tables (__.SYMDEF, __.SYMDEF SORTED,
        // __.SYMDEF_64 ...).
        let symdef: [u8; 9] = [0x5f, 0x5f, 0x2e, 0x53, 0x59, 0x4d, 0x44, 0x45, 0x46];
        assert(symdef@ == symdef_prefix());
        if starts_with(name.as_str().as_bytes(), symdef.as_slice()) {
            continue;
        }
        proof {
            lemma_member_name_within(hdr.name@, strtab@, body@);
        }
        let member = ArchiveMember { name, start: body_start + k, size: body_end - (body_start + k) };
        let ghost before = out@;
        out.push(member);
        assert(member_views(out@) == member_views(before).push(member@));
    }
}

proof fn lemma_member_name_within(field: Seq<u8>, strtab: Seq<u8>, body: Seq<u8>)
    ensures
        0 <= member_name(field, strtab, body).1 <= body.len(),
{
}

/// `files` are the members of the archive `mf`, in order, each opened in
/// place: named "archive(member)", its bytes those of the member inside
/// the archive, and the archive its parent.
pub open spec fn opened_members(mf: &'static MappedFile, files: Seq<&'static MappedFile>) -> bool {
    &&& files.len() == archive_member_list(mf.data@).len()
    &&& forall|i: int|
        0 <= i < files.len() ==> {
            let m = #[trigger] archive_member_list(mf.data@)[i];
            &&& files[i].name@ == mf.name@ + "("@ + m.0 + ")"@
            &&& files[i].data@ == mf.data@.subrange(m.1, m.1 + m.2)
            &&& files[i].parent == Some(mf)
        }
}

/// Opens members as they come in the archive. A member is named
/// "archive(member)", as ld64 reports it.
pub fn read_archive_members(mf: &'static MappedFile) -> (r: Vec<&'static MappedFile>)
    requires
        8 <= mf.data@.len() <= isize::MAX,
    ensures
        opened_members(mf, r@),
{
    let members = archive_members(mf.data());
    let ghost list = archive_member_list(mf.data@);
    let mut out: Vec<&'static MappedFile> = Vec::new();
    let n = members.len();
    let mut i: usize = 0;
    while i < n
        invariant
            n == members@.len(),
            member_views(members@) == list,
            list == archive_member_list(mf.data@),
            forall|j: int|
                0 <= j < members@.len() ==> members@[j].start + members@[j].size <= mf.data@.len(),
            i <= n,
            out@.len() == i,
            forall|j: int|
                0 <= j < i ==> {
                    let m = #[trigger] list[j];
                    &&& out@[j].name@ == mf.name@ + "("@ + m.0 + ")"@
                    &&& out@[j].data@ == mf.data@.subrange(m.1, m.1 + m.2)
                    &&& out@[j].parent == Some(mf)
                },
        decreases n - i,
    {
        let m = &members[i];
        assert(list[i as int] == m@);
        let mut name = mf.name.clone();
        name.append("(");
        name.append(m.name.as_str());
        name.append(")");
        let file = mf.slice(name, m.start, m.size);
        out.push(file);
        i = i + 1;
    }
    out
}

/// The files `read_archive_members` opens are the members
/// `archive_members` lists, one for one and in the same order: the k-th
/// file is named after the archive and the k-th member, and holds the
/// member's bytes.
pub proof fn lemma_opened_members_are_listed(
    mf: &'static MappedFile,
    members: Seq<ArchiveMember>,
    files: Seq<&'static MappedFile>,
)
    requires
        member_views(members) == archive_member_list(mf.data@),
        opened_members(mf, files),
    ensures
        files.len() == members.len(),
        forall|k: int|
            0 <= k < files.len() ==> {
                &&& (#[trigger] files[k]).name@ == mf.name@ + "("@ + members[k].name@ + ")"@
                &&& files[k].data@ == mf.data@.subrange(
                    members[k].start as int,
                    members[k].start + members[k].size,
                )
                &&& files[k].parent == Some(mf)
            },
{
    assert forall|k: int| 0 <= k < files.len() implies {
        &&& (#[trigger] files[k]).name@ == mf.name@ + "("@ + members[k].name@ + ")"@
        &&& files[k].data@ == mf.data@.subrange(
            members[k].start as int,
            members[k].start + members[k].size,
        )
        &&& files[k].parent == Some(mf)
    } by {
        assert(member_views(members)[k] == members[k]@);
        assert(archive_member_list(mf.data@)[k] == members[k]@);
    }
}

/// No member the walk from `pos` lists is a BSD symbol table.
proof fn lemma_members_from_skip_symdef(data: Seq<u8>, pos: int, strtab: Seq<u8>)
    ensures
        forall|i: int|
            0 <= i < members_from(data, pos, strtab).len() ==> !has_prefix(
                encode_utf8((#[trigger] members_from(data, pos, strtab)[i]).0),
                seq![0x5fu8, 0x5f, 0x2e, 0x53, 0x59, 0x4d, 0x44, 0x45, 0x46],
            ),
    decreases data.len() - pos,
{
    assert(symdef_prefix() == seq![0x5fu8, 0x5f, 0x2e, 0x53, 0x59, 0x4d, 0x44, 0x45, 0x46]);
    if !(pos < 0 || pos > data.len() || data.len() - pos < 2) {
        let p = if pos % 2 != 0 {
            pos + 1
        } else {
            pos
        };
        if !(data.len() - p < HEADER_SIZE) {
            let field = data.subrange(p, p + 16);
            let size = decimal_field(data.subrange(p + 48, p + 58));
            let body_start = p + HEADER_SIZE;
            let body_end = if body_start + size <= data.len() {
                body_start + size
            } else {
                data.len() as int
            };
            let body = data.subrange(body_start, body_end);
            lemma_members_from_skip_symdef(data, body_end, body);
            lemma_members_from_skip_symdef(data, body_end, strtab);
            let all = members_from(data, pos, strtab);
            let rest = members_from(data, body_end, strtab);
            if has_prefix(field, strtab_prefix()) {
                assert(all == members_from(data, body_end, body));
            } else if has_prefix(field, symtab_prefix()) || has_prefix(field, symtab64_prefix()) {
                assert(all == rest);
            } else {
                let named = member_name(field, strtab, body);
                if has_prefix(encode_utf8(named.0), symdef_prefix()) {
                    assert(all == rest);
                } else {
                    let first = (named.0, body_start + named.1, body_end - (body_start + named.1));
                    assert(all == seq![first] + rest);
                    assert forall|i: int| 0 <= i < all.len() implies !has_prefix(
                        encode_utf8((#[trigger] all[i]).0),
                        seq![0x5fu8, 0x5f, 0x2e, 0x53, 0x59, 0x4d, 0x44, 0x45, 0x46],
                    ) by {
                        if i > 0 {
                            assert(all[i] == rest[i - 1]);
                        } else {
                            assert(all[0] == first);
                        }
                    }
                }
            }
        }
    }
}

/// An archive's BSD symbol tables (`__.SYMDEF`, `__.SYMDEF SORTED`,
/// `__.SYMDEF_64`, ... whatever follows those nine bytes) are never
/// members: no member `archive_members` lists has a name that starts with
/// "__.SYMDEF".
pub proof fn lemma_no_symdef_member(data: Seq<u8>, members: Seq<ArchiveMember>)
    requires
        member_views(members) == archive_member_list(data),
    ensures
        forall|i: int|
            0 <= i < members.len() ==> !has_prefix(
                encode_utf8((#[trigger] members[i]).name@),
                seq![0x5fu8, 0x5f, 0x2e, 0x53, 0x59, 0x4d, 0x44, 0x45, 0x46],
            ),
{
    lemma_members_from_skip_symdef(data, 8, Seq::empty());
    assert forall|i: int| 0 <= i < members.len() implies !has_prefix(
        encode_utf8((#[trigger] members[i]).name@),
        seq![0x5fu8, 0x5f, 0x2e, 0x53, 0x59, 0x4d, 0x44, 0x45, 0x46],
    ) by {
        assert(member_views(members)[i] == members[i]@);
        assert(archive_member_list(data)[i] == members[i]@);
    }
}

} // verus!
