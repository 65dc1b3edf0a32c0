//! Signs of intrusion: injected libraries, writable code, a patched code
//! region, a virtual machine, a clock that jumps.
use vstd::prelude::*;

use crate::bytes;
use crate::crypto;
use crate::primitives;
use crate::text;

verus! {

/// Whether an environment variable is set to more than white space.
pub open spec fn is_set(v: Option<&str>) -> bool {
    v matches Some(s) && text::trimmed(s@).len() > 0
}

/// Whether a line of a memory map names a dynamic loader.
pub open spec fn names_loader(line: Seq<char>) -> bool {
    text::has_part(line, "ld-musl"@) || text::has_part(line, "-linux-gnu.so"@)
}

/// Whether a line of a memory map shows a region that can be written and run.
pub open spec fn is_rwx(line: Seq<char>) -> bool {
    let w = text::words(line);
    w.len() >= 2 && w[1].contains('w') && w[1].contains('x')
}

/// The lines of a memory map; none where it could not be read.
pub open spec fn map_lines(maps: Option<&str>) -> Seq<Seq<char>> {
    match maps {
        Some(m) => text::text_lines(m@),
        None => Seq::empty(),
    }
}

/// Whether any line names a dynamic loader.
pub open spec fn maps_loader(lines: Seq<Seq<char>>) -> bool {
    exists|i: int| 0 <= i < lines.len() && names_loader(#[trigger] lines[i])
}

/// Whether any line shows a region that can be written and run.
pub open spec fn maps_rwx(lines: Seq<Seq<char>>) -> bool {
    exists|i: int| 0 <= i < lines.len() && is_rwx(#[trigger] lines[i])
}

/// Whether nothing points to injected code: no preloaded library, no library
/// path on a program without a loader, no region that can be written and run.
pub open spec fn clean(
    preload: Option<&str>,
    library_path: Option<&str>,
    maps: Option<&str>,
) -> bool {
    !is_set(preload) && (maps_loader(map_lines(maps)) || !is_set(library_path)) && !maps_rwx(
        map_lines(maps),
    )
}

fn variable_set(v: Option<&str>) -> (r: bool)
    ensures
        r == is_set(v),
{
    match v {
        Some(s) => {
            let chars: Vec<char> = text::chars_of(s);
            text::trim(chars.as_slice()).len() > 0
        },
        None => false,
    }
}

fn read_map(maps: Option<&str>) -> (lines: Vec<String>)
    ensures
        text::views(lines@) == map_lines(maps),
{
    match maps {
        Some(m) => text::lines(m),
        None => {
            let lines: Vec<String> = Vec::new();
            proof {
                assert(text::views(lines@) =~= Seq::empty());
            }
            lines
        },
    }
}

fn maps_has_loader(lines: &Vec<String>) -> (r: bool)
    ensures
        r == maps_loader(text::views(lines@)),
{
    let ghost lv = text::views(lines@);
    let mut i: usize = 0;
    while i < lines.len()
        invariant
            i <= lines@.len(),
            lv == text::views(lines@),
            forall|j: int| 0 <= j < i ==> !names_loader(#[trigger] lv[j]),
        decreases lines@.len() - i,
    {
        let line: Vec<char> = text::chars_of(lines[i].as_str());
        proof {
            assert(lv[i as int] == line@);
        }
        if text::contains(line.as_slice(), "ld-musl") || text::contains(
            line.as_slice(),
            "-linux-gnu.so",
        ) {
            return true;
        }
        i = i + 1;
    }
    false
}

fn maps_has_rwx(lines: &Vec<String>) -> (r: bool)
    ensures
        r == maps_rwx(text::views(lines@)),
{
    let ghost lv = text::views(lines@);
    let mut i: usize = 0;
    while i < lines.len()
        invariant
            i <= lines@.len(),
            lv == text::views(lines@),
            forall|j: int| 0 <= j < i ==> !is_rwx(#[trigger] lv[j]),
        decreases lines@.len() - i,
    {
        let line: Vec<char> = text::chars_of(lines[i].as_str());
        let toks: Vec<Vec<char>> = text::split_words(line.as_slice());
        proof {
            assert(lv[i as int] == line@);
            assert(text::words(line@) == text::char_views(toks@));
        }
        if toks.len() >= 2 {
            let perms: &Vec<char> = &toks[1];
            proof {
                assert(text::words(line@)[1] == perms@);
            }
            if text::contains_char(perms.as_slice(), 'w') && text::contains_char(
                perms.as_slice(),
                'x',
            ) {
                proof {
                    assert(is_rwx(lv[i as int]));
                }
                return true;
            }
        }
        i = i + 1;
    }
    false
}

/// Whether nothing points to injected code. `maps` is the memory map, if it
/// could be read.
pub fn check_injection(
    preload: Option<&str>,
    library_path: Option<&str>,
    maps: Option<&str>,
) -> (ok: bool)
    ensures
        ok == clean(preload, library_path, maps),
{
    if variable_set(preload) {
        return false;
    }
    let lines: Vec<String> = read_map(maps);
    if !maps_has_loader(&lines) && variable_set(library_path) {
        return false;
    }
    !maps_has_rwx(&lines)
}

/// Where a character first stands in a text; the length where it does not.
pub open spec fn first_at(s: Seq<char>, c: char) -> int
    decreases s.len(),
{
    if s.len() == 0 || s[0] == c {
        0
    } else {
        1 + first_at(s.drop_first(), c)
    }
}

/// An address range `lo-hi` in hexadecimal.
pub open spec fn parsed_range(s: Seq<char>) -> Option<(u64, u64)> {
    let cut = first_at(s, '-');
    if cut >= s.len() {
        None
    } else {
        match (
            text::parsed_hex(s.subrange(0, cut)),
            text::parsed_hex(s.subrange(cut + 1, s.len() as int)),
        ) {
            (Some(lo), Some(hi)) => Some((lo, hi)),
            _ => None,
        }
    }
}

/// The address range of a line of a memory map, where its region can be read
/// and run.
pub open spec fn code_range(line: Seq<char>) -> Option<(u64, u64)> {
    let w = text::words(line);
    if w.len() >= 2 && w[1].contains('x') && w[1].contains('r') {
        parsed_range(w[0])
    } else {
        None
    }
}

/// The range of the first code region among the lines from `i` on.
pub open spec fn first_code_range(lines: Seq<Seq<char>>, i: int) -> Option<(u64, u64)>
    decreases lines.len() - i,
{
    if i < 0 || i >= lines.len() {
        None
    } else if code_range(lines[i]) is Some {
        code_range(lines[i])
    } else {
        first_code_range(lines, i + 1)
    }
}

fn find_char(s: &[char], c: char) -> (i: usize)
    ensures
        i == first_at(s@, c),
        i <= s@.len(),
{
    let mut i: usize = 0;
    proof {
        assert(s@.subrange(0, s@.len() as int) =~= s@);
    }
    while i < s.len() && s[i] != c
        invariant
            i <= s@.len(),
            first_at(s@, c) == i + first_at(s@.subrange(i as int, s@.len() as int), c),
        decreases s@.len() - i,
    {
        proof {
            assert(s@.subrange(i as int, s@.len() as int).drop_first() =~= s@.subrange(
                i + 1,
                s@.len() as int,
            ));
        }
        i = i + 1;
    }
    i
}

fn parse_range(s: &[char]) -> (r: Option<(u64, u64)>)
    ensures
        r == parsed_range(s@),
{
    let cut: usize = find_char(s, '-');
    if cut >= s.len() {
        return None;
    }
    let lo: Option<u64> = text::parse_hex(vstd::slice::slice_subrange(s, 0, cut));
    let hi: Option<u64> = text::parse_hex(vstd::slice::slice_subrange(s, cut + 1, s.len()));
    match (lo, hi) {
        (Some(lo), Some(hi)) => Some((lo, hi)),
        _ => None,
    }
}

fn line_code_range(line: &str) -> (r: Option<(u64, u64)>)
    ensures
        r == code_range(line@),
{
    let chars: Vec<char> = text::chars_of(line);
    let toks: Vec<Vec<char>> = text::split_words(chars.as_slice());
    if toks.len() < 2 {
        return None;
    }
    let range: &Vec<char> = &toks[0];
    let perms: &Vec<char> = &toks[1];
    proof {
        assert(text::words(line@)[0] == range@);
        assert(text::words(line@)[1] == perms@);
    }
    if text::contains_char(perms.as_slice(), 'x') && text::contains_char(perms.as_slice(), 'r') {
        parse_range(range.as_slice())
    } else {
        None
    }
}

/// Where a memory map places the program's code: the first region that can be
/// read and run.
pub fn text_range(maps: &str) -> (r: Option<(u64, u64)>)
    ensures
        r == first_code_range(text::text_lines(maps@), 0),
{
    let lines: Vec<String> = text::lines(maps);
    let ghost lv = text::text_lines(maps@);
    let mut i: usize = 0;
    while i < lines.len()
        invariant
            i <= lines@.len(),
            lv == text::views(lines@),
            lv == text::text_lines(maps@),
            first_code_range(lv, 0) == first_code_range(lv, i as int),
        decreases lines@.len() - i,
    {
        proof {
            assert(lv[i as int] == lines@[i as int]@);
        }
        let r: Option<(u64, u64)> = line_code_range(lines[i].as_str());
        if r.is_some() {
            return r;
        }
        i = i + 1;
    }
    None
}

/// Where the PE header starts in a loaded image.
pub open spec fn pe_start(image: Seq<u8>) -> int {
    bytes::le_value(image.subrange(0x3c, 0x40)) as int
}

/// Number of sections of a loaded image.
pub open spec fn section_count(image: Seq<u8>) -> int {
    bytes::le_value(image.subrange(pe_start(image) + 6, pe_start(image) + 8)) as int
}

/// Where the section table starts: behind the optional header, whose size the
/// file header gives.
pub open spec fn section_table(image: Seq<u8>) -> int {
    pe_start(image) + 24 + bytes::le_value(
        image.subrange(pe_start(image) + 20, pe_start(image) + 22),
    )
}

/// Whether the headers of a loaded image are all there.
pub open spec fn headers_complete(image: Seq<u8>) -> bool {
    &&& 0x40 <= image.len()
    &&& pe_start(image) + 24 <= image.len()
    &&& section_table(image) + 40 * section_count(image) <= image.len()
}

/// Whether section number `i` is called `.text`.
pub open spec fn is_text_section(image: Seq<u8>, i: int) -> bool {
    let at = section_table(image) + 40 * i;
    image.subrange(at, at + 8) == text::ascii(".text"@) + bytes::zeros(3)
}

/// Where section number `i` lies in memory: its address and its size.
pub open spec fn section_place(image: Seq<u8>, i: int) -> (int, int) {
    let at = section_table(image) + 40 * i;
    (
        bytes::le_value(image.subrange(at + 12, at + 16)) as int,
        bytes::le_value(image.subrange(at + 8, at + 12)) as int,
    )
}

/// The last `.text` section among the first `n` sections.
pub open spec fn last_text_section(image: Seq<u8>, n: nat) -> Option<(int, int)>
    decreases n,
{
    if n == 0 {
        None
    } else if is_text_section(image, n - 1) {
        Some(section_place(image, n - 1))
    } else {
        last_text_section(image, (n - 1) as nat)
    }
}

/// The code of a loaded image: its last `.text` section, if the headers are
/// all there and the section lies within the image.
pub open spec fn image_code(image: Seq<u8>) -> Option<Seq<u8>> {
    if !headers_complete(image) {
        None
    } else {
        match last_text_section(image, section_count(image) as nat) {
            Some((at, size)) => if at + size <= image.len() {
                Some(image.subrange(at, at + size))
            } else {
                None
            },
            None => None,
        }
    }
}

/// The digest of the code of a loaded image.
pub fn image_text_hash(image: &[u8]) -> (r: Option<[u8; 32]>)
    ensures
        match r {
            Some(d) => image_code(image@) matches Some(code) && d@ == primitives::sha3_256_digest(
                code,
            ),
            None => image_code(image@) is None,
        },
{
    let len: u64 = image.len() as u64;
    if len < 0x40 {
        return None;
    }
    proof {
        bytes::lemma_pow256_small();
    }
    let pe: u64 = bytes::read_le(image, 0x3c, 4);
    if pe + 24 > len {
        return None;
    }
    let pe_at: usize = pe as usize;
    let count: u64 = bytes::read_le(image, pe_at + 6, 2);
    let opt: u64 = bytes::read_le(image, pe_at + 20, 2);
    let table: u64 = pe + 24 + opt;
    if table + 40 * count > len {
        return None;
    }
    let mut name: Vec<u8> = text::ascii_bytes(".text");
    name.push(0);
    name.push(0);
    name.push(0);
    proof {
        assert(name@ =~= text::ascii(".text"@) + bytes::zeros(3));
        reveal_strlit(".text");
    }
    let mut found: Option<(u64, u64)> = None;
    let mut i: u64 = 0;
    while i < count
        invariant
            i <= count,
            len == image@.len(),
            headers_complete(image@),
            count == section_count(image@),
            count < 0x1_0000,
            table == section_table(image@),
            table + 40 * count <= len,
            name@ == text::ascii(".text"@) + bytes::zeros(3),
            name@.len() == 8,
            match found {
                Some((at, size)) => last_text_section(image@, i as nat) == Some(
                    (at as int, size as int),
                ) && at < 0x1_0000_0000 && size < 0x1_0000_0000,
                None => last_text_section(image@, i as nat) is None,
            },
        decreases count - i,
    {
        proof {
            bytes::lemma_pow256_small();
            assert(len == image.len());
            assert(table + 40 * i + 40 <= table + 40 * count);
        }
        let at: usize = (table + 40 * i) as usize;
        let tag: &[u8] = vstd::slice::slice_subrange(image, at, at + 8);
        if bytes::slices_equal(tag, name.as_slice()) {
            let size: u64 = bytes::read_le(image, at + 8, 4);
            let place: u64 = bytes::read_le(image, at + 12, 4);
            found = Some((place, size));
        }
        i = i + 1;
    }
    match found {
        Some((at, size)) => {
            if at + size > len {
                return None;
            }
            let code: &[u8] = vstd::slice::slice_subrange(
                image,
                at as usize,
                (at + size) as usize,
            );
            Some(crypto::sha3_256(code))
        },
        None => None,
    }
}

/// Names of hypervisors in a machine's identification.
pub open spec fn vm_names() -> Seq<Seq<char>> {
    seq!["vmware"@, "virtualbox"@, "qemu"@, "kvm"@, "innotek"@, "xen"@, "vbox"@]
}

/// Whether a text, taken in lower case, holds the name of a hypervisor.
pub open spec fn names_vm(s: Seq<char>) -> bool {
    exists|i: int|
        0 <= i < vm_names().len() && text::has_part(text::lower_case(s), #[trigger] vm_names()[i])
}

/// Whether the processor or the machine's identification points to a virtual
/// machine.
pub open spec fn looks_virtual(cpuinfo: Option<&str>, ids: Seq<String>) -> bool {
    (cpuinfo matches Some(c) && text::has_part(text::lower_case(c@), "hypervisor"@)) || exists|
        i: int,
    |
        0 <= i < ids.len() && names_vm((#[trigger] ids[i])@)
}

fn text_names_vm(s: &str) -> (r: bool)
    ensures
        r == names_vm(s@),
{
    let low: String = text::to_lower(s);
    let chars: Vec<char> = text::chars_of(low.as_str());
    let c: &[char] = chars.as_slice();
    let hits: [bool; 7] = [
        text::contains(c, "vmware"),
        text::contains(c, "virtualbox"),
        text::contains(c, "qemu"),
        text::contains(c, "kvm"),
        text::contains(c, "innotek"),
        text::contains(c, "xen"),
        text::contains(c, "vbox"),
    ];
    let mut i: usize = 0;
    proof {
        assert forall|j: int| 0 <= j < 7 implies hits@[j] == text::has_part(
            text::lower_case(s@),
            #[trigger] vm_names()[j],
        ) by {}
    }
    while i < 7
        invariant
            i <= 7,
            forall|j: int|
                0 <= j < 7 ==> hits@[j] == text::has_part(
                    text::lower_case(s@),
                    #[trigger] vm_names()[j],
                ),
            forall|j: int| 0 <= j < i ==> !hits@[j],
        decreases 7 - i,
    {
        if hits[i] {
            proof {
                assert(text::has_part(text::lower_case(s@), vm_names()[i as int]));
            }
            return true;
        }
        i = i + 1;
    }
    false
}

/// Whether the machine looks virtual. `cpuinfo` describes the processor, `ids`
/// are the identification texts that could be read. The signs can be faked and
/// can mislead: they are a reason to slow down, not to refuse.
pub fn vm_detected(cpuinfo: Option<&str>, ids: &Vec<String>) -> (r: bool)
    ensures
        r == looks_virtual(cpuinfo, ids@),
{
    if let Some(c) = cpuinfo {
        let low: String = text::to_lower(c);
        let chars: Vec<char> = text::chars_of(low.as_str());
        if text::contains(chars.as_slice(), "hypervisor") {
            return true;
        }
    }
    let mut i: usize = 0;
    while i < ids.len()
        invariant
            i <= ids@.len(),
            forall|j: int| 0 <= j < i ==> !names_vm((#[trigger] ids@[j])@),
        decreases ids@.len() - i,
    {
        if text_names_vm(ids[i].as_str()) {
            return true;
        }
        i = i + 1;
    }
    false
}

/// An ASCII letter in lower case; every other byte as it is.
pub open spec fn ascii_lower(b: u8) -> u8 {
    if 65 <= b <= 90 {
        (b + 32) as u8
    } else {
        b
    }
}

/// Whether `needle` stands at place `i` of `hay`, whatever the case of letters.
pub open spec fn matches_at(hay: Seq<u8>, needle: Seq<u8>, i: int) -> bool {
    0 <= i <= hay.len() - needle.len() && forall|j: int|
        0 <= j < needle.len() ==> ascii_lower(hay[i + j]) == ascii_lower(#[trigger] needle[j])
}

/// Whether `needle`, which is not empty, stands anywhere in `hay`, whatever
/// the case of letters.
pub open spec fn holds_any_case(hay: Seq<u8>, needle: Seq<u8>) -> bool {
    needle.len() > 0 && exists|i: int| #[trigger] matches_at(hay, needle, i)
}

fn lower_byte(b: u8) -> (r: u8)
    ensures
        r == ascii_lower(b),
{
    if 65 <= b && b <= 90 {
        b + 32
    } else {
        b
    }
}

fn match_at(hay: &[u8], needle: &[u8], i: usize) -> (r: bool)
    requires
        i + needle@.len() <= hay@.len(),
    ensures
        r == matches_at(hay@, needle@, i as int),
{
    let mut j: usize = 0;
    while j < needle.len()
        invariant
            j <= needle@.len(),
            i + needle@.len() <= hay@.len(),
            forall|k: int|
                0 <= k < j ==> ascii_lower(hay@[i + k]) == ascii_lower(#[trigger] needle@[k]),
        decreases needle@.len() - j,
    {
        proof {
            assert(i + needle@.len() <= hay.len());
        }
        if lower_byte(hay[i + j]) != lower_byte(needle[j]) {
            proof {
                assert(ascii_lower(hay@[i + j]) != ascii_lower(needle@[j as int]));
            }
            return false;
        }
        j = j + 1;
    }
    true
}

/// Searches bytes, whatever the case of letters.
pub fn find_case_insensitive(hay: &[u8], needle: &[u8]) -> (r: bool)
    ensures
        r == holds_any_case(hay@, needle@),
{
    if needle.len() == 0 || needle.len() > hay.len() {
        return false;
    }
    let last: usize = hay.len() - needle.len();
    let mut i: usize = 0;
    while i <= last
        invariant
            i <= last + 1,
            last + needle@.len() == hay@.len(),
            needle@.len() > 0,
            forall|j: int| 0 <= j < i ==> !#[trigger] matches_at(hay@, needle@, j),
        decreases last + 1 - i,
    {
        if match_at(hay, needle, i) {
            return true;
        }
        proof {
            assert(last + needle@.len() == hay.len());
        }
        i = i + 1;
    }
    false
}

/// Names of hypervisors in a firmware table.
pub open spec fn firmware_names() -> Seq<Seq<u8>> {
    seq![
        text::ascii("vmware"@),
        text::ascii("virtualbox"@),
        text::ascii("qemu"@),
        text::ascii("kvm"@),
        text::ascii("vbox"@),
        text::ascii("xen"@),
    ]
}

/// Whether a firmware table holds the name of a hypervisor.
pub fn firmware_virtual(table: &[u8]) -> (r: bool)
    ensures
        r == exists|i: int|
            0 <= i < firmware_names().len() && holds_any_case(
                table@,
                #[trigger] firmware_names()[i],
            ),
{
    let names: [Vec<u8>; 6] = [
        text::ascii_bytes("vmware"),
        text::ascii_bytes("virtualbox"),
        text::ascii_bytes("qemu"),
        text::ascii_bytes("kvm"),
        text::ascii_bytes("vbox"),
        text::ascii_bytes("xen"),
    ];
    let mut i: usize = 0;
    while i < 6
        invariant
            i <= 6,
            forall|j: int| 0 <= j < 6 ==> (#[trigger] names@[j])@ == firmware_names()[j],
            forall|j: int| 0 <= j < i ==> !holds_any_case(table@, #[trigger] firmware_names()[j]),
        decreases 6 - i,
    {
        proof {
            assert(names@[i as int]@ == firmware_names()[i as int]);
        }
        if find_case_insensitive(table, names[i].as_slice()) {
            return true;
        }
        i = i + 1;
    }
    false
}

/// How far the wall clock may stray from the steady clock, in nanoseconds.
pub const CLOCK_JUMP_LIMIT: i128 = 2_000_000_000;

/// A reading of the steady clock and of the wall clock at one moment, in
/// nanoseconds.
#[derive(Clone, Copy, PartialEq, Eq, Structural, Debug)]
pub struct ClockAnchor {
    pub mono0: i64,
    pub wall0: i64,
}

impl ClockAnchor {
    /// How far the wall clock has strayed since.
    pub open spec fn jump(&self, mono: i64, wall: i64) -> int {
        wall - (self.wall0 + (mono - self.mono0))
    }

    /// Remembers both clocks.
    pub fn new(mono: i64, wall: i64) -> (a: ClockAnchor)
        ensures
            a.mono0 == mono,
            a.wall0 == wall,
    {
        ClockAnchor { mono0: mono, wall0: wall }
    }

    /// Whether the wall clock still agrees with the steady clock.
    pub fn sane(&self, mono: i64, wall: i64) -> (r: bool)
        ensures
            r == (-CLOCK_JUMP_LIMIT < self.jump(mono, wall) < CLOCK_JUMP_LIMIT),
            r == (-2_000_000_000 < (wall - self.wall0) - (mono - self.mono0) < 2_000_000_000),
    {
        let expected: i128 = (self.wall0 as i128) + ((mono as i128) - (self.mono0 as i128));
        let jump: i128 = (wall as i128) - expected;
        -CLOCK_JUMP_LIMIT < jump && jump < CLOCK_JUMP_LIMIT
    }
}

/// The process mitigation policies to raise, as pairs of policy and flags:
/// address space layout, dynamic code, strict handles, control flow guard,
/// image loading.
pub fn mitigation_policies() -> (p: [(u32, u32); 5])
    ensures
        p@ == seq![(1u32, 7u32), (2u32, 1u32), (3u32, 1u32), (7u32, 1u32), (10u32, 7u32)],
{
    let p: [(u32, u32); 5] = [(1, 7), (2, 1), (3, 1), (7, 1), (10, 7)];
    proof {
        assert(p@ =~= seq![(1u32, 7u32), (2u32, 1u32), (3u32, 1u32), (7u32, 1u32), (10u32, 7u32)]);
    }
    p
}

/// An idle moment that takes longer than this, in nanoseconds, means that the
/// program is stepped through.
pub const IDLE_LIMIT: u64 = 5_000_000;

/// Whether nobody watches: no process traces this one, no debugger is attached,
/// and an idle moment is over quickly.
pub fn anti_debug_checks(tracer: u32, debugger: bool, idle_nanos: u64) -> (r: bool)
    ensures
        r == (tracer == 0 && !debugger && idle_nanos <= 5_000_000),
{
    tracer == 0 && !debugger && idle_nanos <= IDLE_LIMIT
}

/// Whether a line of a memory map shows a region that can be written and run
/// hangs on its second word: both letters must stand in it.
pub proof fn law_writable_code(range: Seq<char>, perms: Seq<char>, rest: Seq<char>)
    requires
        range.len() > 0,
        perms.len() > 0,
        forall|i: int| 0 <= i < range.len() ==> !text::is_space(#[trigger] range[i]),
        forall|i: int| 0 <= i < perms.len() ==> !text::is_space(#[trigger] perms[i]),
    ensures
        is_rwx(range.push(' ') + (perms.push(' ') + rest)) <==> perms.contains('w')
            && perms.contains('x'),
        code_range(range.push(' ') + (perms.push(' ') + rest)) == (if perms.contains('r')
            && perms.contains('x') {
            parsed_range(range)
        } else {
            None
        }),
{
    let tail = perms.push(' ') + rest;
    let line = range.push(' ') + tail;
    text::law_words(range, ' ', tail, range);
    text::law_words(perms, ' ', rest, perms);
    let w = text::words(line);
    assert(w =~= seq![range] + (seq![perms] + text::words(rest)));
    assert(w[0] == range && w[1] == perms);
}

/// An address range is two hexadecimal numbers with a dash between them.
pub proof fn law_address_range(lo: Seq<char>, hi: Seq<char>)
    requires
        !lo.contains('-'),
    ensures
        parsed_range(lo.push('-') + hi) == (match (text::parsed_hex(lo), text::parsed_hex(hi)) {
            (Some(a), Some(b)) => Some((a, b)),
            _ => None,
        }),
        parsed_range(lo) is None,
{
    let s = lo.push('-') + hi;
    lemma_first_at(lo, hi);
    assert(s.subrange(0, lo.len() as int) =~= lo);
    assert(s.subrange(lo.len() as int + 1, s.len() as int) =~= hi);
    lemma_not_at(lo);
}

proof fn lemma_first_at(lo: Seq<char>, hi: Seq<char>)
    requires
        !lo.contains('-'),
    ensures
        first_at(lo.push('-') + hi, '-') == lo.len(),
    decreases lo.len(),
{
    let s = lo.push('-') + hi;
    if lo.len() > 0 {
        assert(lo.contains(lo[0]));
        assert(s[0] == lo[0]);
        let t = lo.drop_first();
        assert forall|i: int| 0 <= i < t.len() implies t[i] != '-' by {
            assert(lo.contains(lo[i + 1]));
        }
        assert(s.drop_first() =~= t.push('-') + hi);
        lemma_first_at(t, hi);
    } else {
        assert(s[0] == '-');
    }
}

proof fn lemma_not_at(s: Seq<char>)
    requires
        !s.contains('-'),
    ensures
        first_at(s, '-') == s.len(),
    decreases s.len(),
{
    if s.len() > 0 {
        assert(s.contains(s[0]));
        let t = s.drop_first();
        assert forall|i: int| 0 <= i < t.len() implies t[i] != '-' by {
            assert(s.contains(s[i + 1]));
        }
        lemma_not_at(t);
    }
}

/// What points to injected code: a preloaded library always does; a library path
/// does unless the memory map names a loader; a region that can be written and
/// run always does; and nothing else does.
pub proof fn law_injection(preload: Option<&str>, library_path: Option<&str>, maps: Option<&str>)
    ensures
        preload matches Some(s) && text::trimmed(s@).len() > 0 ==> !clean(
            preload,
            library_path,
            maps,
        ),
        preload is None && library_path is None && maps is None ==> clean(
            preload,
            library_path,
            maps,
        ),
        maps matches Some(m) && (exists|i: int|
            0 <= i < text::text_lines(m@).len() && is_rwx(#[trigger] text::text_lines(m@)[i]))
            ==> !clean(preload, library_path, maps),
        maps is None && (library_path matches Some(s) && text::trimmed(s@).len() > 0) ==> !clean(
            preload,
            library_path,
            maps,
        ),
        preload is None && library_path is None && maps is Some ==> (clean(
            preload,
            library_path,
            maps,
        ) <==> forall|i: int|
            0 <= i < text::text_lines(maps->0@).len() ==> !is_rwx(
                #[trigger] text::text_lines(maps->0@)[i],
            )),
{
}

/// A loader is named by either of two words.
pub proof fn law_loader_names(line: Seq<char>)
    ensures
        names_loader(line) <==> text::has_part(line, "ld-musl"@) || text::has_part(
            line,
            "-linux-gnu.so"@,
        ),
{
}

/// Letters are found in either case: a table holds a name if the name, or the
/// name in small letters, stands anywhere in it.
pub proof fn law_found_in_any_case(a: Seq<u8>, name: Seq<u8>, found: Seq<u8>, b: Seq<u8>)
    requires
        name.len() > 0,
        found.len() == name.len(),
        forall|i: int|
            0 <= i < name.len() ==> #[trigger] found[i] == name[i] || (0x61 <= name[i] <= 0x7a
                && found[i] == name[i] - 32) || (0x41 <= name[i] <= 0x5a && found[i] == name[i]
                + 32),
    ensures
        holds_any_case(a + found + b, name),
{
    let hay = a + found + b;
    let k = a.len() as int;
    assert forall|j: int| 0 <= j < name.len() implies ascii_lower(hay[k + j]) == ascii_lower(
        #[trigger] name[j],
    ) by {
        assert(hay[k + j] == found[j]);
    }
    assert(matches_at(hay, name, k));
}

/// Whether two names are the same but for the case of their letters.
pub open spec fn same_letters(a: Seq<u8>, b: Seq<u8>) -> bool {
    a.len() == b.len() && forall|i: int|
        0 <= i < a.len() ==> #[trigger] a[i] == b[i] || (0x41 <= a[i] <= 0x5a && b[i] == a[i] + 32)
            || (0x61 <= a[i] <= 0x7a && b[i] == a[i] - 32)
}

/// What is found in any case stands there but for the case of letters.
pub proof fn law_found_is_there(hay: Seq<u8>, name: Seq<u8>)
    requires
        holds_any_case(hay, name),
    ensures
        exists|i: int|
            0 <= i <= hay.len() - name.len() && same_letters(
                #[trigger] hay.subrange(i, i + name.len()),
                name,
            ),
{
    let i = choose|i: int| #[trigger] matches_at(hay, name, i);
    let part = hay.subrange(i, i + name.len());
    assert forall|j: int| 0 <= j < part.len() implies #[trigger] part[j] == name[j] || (0x41
        <= part[j] <= 0x5a && name[j] == part[j] + 32) || (0x61 <= part[j] <= 0x7a && name[j]
        == part[j] - 32) by {
        assert(ascii_lower(hay[i + j]) == ascii_lower(name[j]));
    }
    assert(same_letters(part, name));
}

/// The names by which a virtual machine is known.
pub proof fn law_virtual_machine_names(s: Seq<char>)
    ensures
        names_vm(s) <==> {
            let low = text::lower_case(s);
            text::has_part(low, "vmware"@) || text::has_part(low, "virtualbox"@) || text::has_part(
                low,
                "qemu"@,
            ) || text::has_part(low, "kvm"@) || text::has_part(low, "innotek"@) || text::has_part(
                low,
                "xen"@,
            ) || text::has_part(low, "vbox"@)
        },
{
    let n = vm_names();
    assert(n[0] == "vmware"@ && n[1] == "virtualbox"@ && n[2] == "qemu"@ && n[3] == "kvm"@ && n[4]
        == "innotek"@ && n[5] == "xen"@ && n[6] == "vbox"@);
}

/// The code of a loaded image is what the headers name: from the start of the
/// headers, which stands at 0x3c, the number of sections stands at six, the size
/// of the optional header at twenty, and the section table follows at
/// twenty-four and that size; in each entry of forty bytes the name stands first,
/// the size at eight and the address at twelve. A single section called `.text`
/// that lies within the image is the code.
pub proof fn law_code_of_an_image(image: Seq<u8>, k: int)
    requires
        headers_complete(image),
        0 <= k < section_count(image),
        forall|i: int|
            0 <= i < section_count(image) ==> (#[trigger] is_text_section(image, i) <==> i == k),
    ensures
        ({
            let pe = bytes::le_value(image.subrange(0x3c, 0x40)) as int;
            let table = pe + 24 + bytes::le_value(image.subrange(pe + 20, pe + 22));
            let entry = table + 40 * k;
            let size = bytes::le_value(image.subrange(entry + 8, entry + 12));
            let at = bytes::le_value(image.subrange(entry + 12, entry + 16));
            &&& section_count(image) == bytes::le_value(image.subrange(pe + 6, pe + 8))
            &&& image.subrange(entry, entry + 8) == seq![46u8, 116, 101, 120, 116, 0, 0, 0]
            &&& image_code(image) == (if at + size <= image.len() {
                Some(image.subrange(at as int, (at + size) as int))
            } else {
                None
            })
        }),
{
    reveal_strlit(".text");
    assert(text::ascii(".text"@) + bytes::zeros(3) =~= seq![46u8, 116, 101, 120, 116, 0, 0, 0]);
    assert(is_text_section(image, k));
    lemma_only_text(image, section_count(image) as nat, k);
}

proof fn lemma_only_text(image: Seq<u8>, n: nat, k: int)
    requires
        n <= section_count(image),
        0 <= k < n,
        forall|i: int|
            0 <= i < section_count(image) ==> (#[trigger] is_text_section(image, i) <==> i == k),
    ensures
        last_text_section(image, n) == Some(section_place(image, k)),
    decreases n,
{
    if n - 1 != k {
        assert(!is_text_section(image, n - 1));
        lemma_only_text(image, (n - 1) as nat, k);
    } else {
        assert(is_text_section(image, k));
    }
}

/// The code region is the first one in the map that can be read and run.
pub proof fn law_first_code_region(lines: Seq<Seq<char>>, k: int)
    requires
        0 <= k < lines.len(),
        code_range(lines[k]) is Some,
        forall|i: int| 0 <= i < k ==> code_range(#[trigger] lines[i]) is None,
    ensures
        first_code_range(lines, 0) == code_range(lines[k]),
{
    lemma_code_region_from(lines, 0, k);
}

proof fn lemma_code_region_from(lines: Seq<Seq<char>>, i: int, k: int)
    requires
        0 <= i <= k < lines.len(),
        code_range(lines[k]) is Some,
        forall|j: int| 0 <= j < k ==> code_range(#[trigger] lines[j]) is None,
    ensures
        first_code_range(lines, i) == code_range(lines[k]),
    decreases k - i,
{
    if i < k {
        lemma_code_region_from(lines, i + 1, k);
    }
}

/// A machine looks virtual if its processor names a hypervisor, or if one of its
/// identifications holds the name of one; and in no other case.
pub proof fn law_looks_virtual(cpuinfo: Option<&str>, ids: Seq<String>, i: int)
    ensures
        cpuinfo matches Some(c) && text::has_part(text::lower_case(c@), "hypervisor"@)
            ==> looks_virtual(cpuinfo, ids),
        0 <= i < ids.len() && names_vm(ids[i]@) ==> looks_virtual(cpuinfo, ids),
        cpuinfo is None && (forall|k: int| 0 <= k < ids.len() ==> !names_vm((#[trigger] ids[k])@))
            ==> !looks_virtual(cpuinfo, ids),
{
}

/// The names that are looked for in a firmware table.
pub proof fn law_firmware_names()
    ensures
        firmware_names().len() == 6,
        firmware_names()[0] == seq![118u8, 109, 119, 97, 114, 101],
        firmware_names()[1] == seq![118u8, 105, 114, 116, 117, 97, 108, 98, 111, 120],
        firmware_names()[2] == seq![113u8, 101, 109, 117],
        firmware_names()[3] == seq![107u8, 118, 109],
        firmware_names()[4] == seq![118u8, 98, 111, 120],
        firmware_names()[5] == seq![120u8, 101, 110],
{
    reveal_strlit("vmware");
    reveal_strlit("virtualbox");
    reveal_strlit("qemu");
    reveal_strlit("kvm");
    reveal_strlit("vbox");
    reveal_strlit("xen");
    assert(text::ascii("vmware"@) =~= seq![118u8, 109, 119, 97, 114, 101]);
    assert(text::ascii("virtualbox"@) =~= seq![118u8, 105, 114, 116, 117, 97, 108, 98, 111, 120]);
    assert(text::ascii("qemu"@) =~= seq![113u8, 101, 109, 117]);
    assert(text::ascii("kvm"@) =~= seq![107u8, 118, 109]);
    assert(text::ascii("vbox"@) =~= seq![118u8, 98, 111, 120]);
    assert(text::ascii("xen"@) =~= seq![120u8, 101, 110]);
}

/// A library path is no sign where the memory map names a loader: with a loader,
/// no preloaded library and no region that can be written and run, all is clean.
pub proof fn law_library_path_with_a_loader(
    preload: Option<&str>,
    library_path: Option<&str>,
    maps: Option<&str>,
    k: int,
)
    requires
        preload is None,
        maps is Some,
        0 <= k < text::text_lines(maps->0@).len(),
        names_loader(text::text_lines(maps->0@)[k]),
        forall|i: int|
            0 <= i < text::text_lines(maps->0@).len() ==> !is_rwx(
                #[trigger] text::text_lines(maps->0@)[i],
            ),
    ensures
        clean(preload, library_path, maps),
{
    assert(names_loader(map_lines(maps)[k]));
}

/// An empty name is found nowhere, and a name longer than the table neither.
pub proof fn law_nothing_to_find(hay: Seq<u8>, name: Seq<u8>)
    requires
        name.len() == 0 || name.len() > hay.len(),
    ensures
        !holds_any_case(hay, name),
{
}

/// A variable that is empty or holds white space alone is not set.
pub proof fn law_variables(v: &str)
    ensures
        !is_set(None),
        (forall|i: int| 0 <= i < v@.len() ==> text::is_space(#[trigger] v@[i])) ==> !is_set(Some(v)),
        (v@.len() > 0 && !text::is_space(v@[0]) && !text::is_space(v@.last())) ==> is_set(Some(v)),
{
    if forall|i: int| 0 <= i < v@.len() ==> text::is_space(#[trigger] v@[i]) {
        text::law_trimming(v@, Seq::empty(), Seq::empty());
        assert(v@ + Seq::<char>::empty() + Seq::<char>::empty() =~= v@);
    }
    if v@.len() > 0 && !text::is_space(v@[0]) && !text::is_space(v@.last()) {
        text::law_trimming(Seq::empty(), v@, Seq::empty());
        assert(Seq::<char>::empty() + v@ + Seq::<char>::empty() =~= v@);
    }
}

} // verus!
