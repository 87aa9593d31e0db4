//! Checks of the package installer: which files belong to a package,
//! whether a library binary matches the signature in its header, and which
//! dependencies a `six.toml` manifest names.

use vstd::prelude::*;
use crate::text::{
    before_char, before_char_chars, chars_of, has_prefix, has_suffix, line_at, lines,
    lines_from, next_line, prefix_at, replace_all, replace_chars, string_from_chars,
    strip_repeated, strip_repeated_chars, suffix_is, trim, trim_chars,
};

verus! {

pub open spec fn lib_extension() -> Seq<char> {
    seq!['.', 's', 'i', 'z', '.', 'l', 'i', 'b']
}

pub open spec fn header_extension() -> Seq<char> {
    seq!['.', 's', 'i', 'x', '.', 'h']
}

pub open spec fn sig_marker() -> Seq<char> {
    seq!['/', '/', ' ', 'S', 'I', 'G', ':']
}

pub open spec fn deps_section() -> Seq<char> {
    seq!['[', 'd', 'e', 'p', 'e', 'n', 'd', 'e', 'n', 'c', 'i', 'e', 's', ']']
}

/// The file-name stem of a package: `@` dropped and `/` turned into `-`,
/// in that order.
pub open spec fn package_stem_of(package: Seq<char>) -> Seq<char> {
    replace_all(replace_all(package, seq!['@'], seq![]), seq!['/'], seq!['-'])
}

fn lib_extension_chars() -> (v: Vec<char>)
    ensures
        v@ == lib_extension(),
{
    let v = vec!['.', 's', 'i', 'z', '.', 'l', 'i', 'b'];
    proof {
        assert(v@ =~= lib_extension());
    }
    v
}

fn header_extension_chars() -> (v: Vec<char>)
    ensures
        v@ == header_extension(),
{
    let v = vec!['.', 's', 'i', 'x', '.', 'h'];
    proof {
        assert(v@ =~= header_extension());
    }
    v
}

fn sig_marker_chars() -> (v: Vec<char>)
    ensures
        v@ == sig_marker(),
{
    let v = vec!['/', '/', ' ', 'S', 'I', 'G', ':'];
    proof {
        assert(v@ =~= sig_marker());
    }
    v
}

fn deps_section_chars() -> (v: Vec<char>)
    ensures
        v@ == deps_section(),
{
    let v = vec!['[', 'd', 'e', 'p', 'e', 'n', 'd', 'e', 'n', 'c', 'i', 'e', 's', ']'];
    proof {
        assert(v@ =~= deps_section());
    }
    v
}

/// The file-name stem under which `package` (such as `@scope/name`) is looked up.
pub fn package_stem(package: &str) -> (stem: String)
    ensures
        stem@ == package_stem_of(package@),
{
    let p = chars_of(package);
    let at = vec!['@'];
    let nothing: Vec<char> = Vec::new();
    let slash = vec!['/'];
    let dash = vec!['-'];
    proof {
        assert(at@ =~= seq!['@']);
        assert(slash@ =~= seq!['/']);
        assert(dash@ =~= seq!['-']);
        assert(nothing@ =~= Seq::<char>::empty());
    }
    let no_at = replace_chars(&p, &at, &nothing);
    let stem = replace_chars(&no_at, &slash, &dash);
    string_from_chars(stem.as_slice())
}

/// Whether a registry file named `file_name` is a library of the package
/// with stem `stem`: it starts with the stem and ends in `.siz.lib`.
pub fn is_package_file(file_name: &str, stem: &str) -> (b: bool)
    ensures
        b == (has_prefix(file_name@, stem@) && has_suffix(file_name@, lib_extension())),
{
    let f = chars_of(file_name);
    let s = chars_of(stem);
    let ext = lib_extension_chars();
    proof {
        assert(f@.skip(0) =~= f@);
    }
    prefix_at(&f, 0, &s) && suffix_is(&f, &ext)
}

/// The name of the header that goes with a library file: every `.siz.lib`
/// in it replaced by `.six.h`.
pub fn header_file_name(lib_name: &str) -> (h: String)
    ensures
        h@ == replace_all(lib_name@, lib_extension(), header_extension()),
{
    let n = chars_of(lib_name);
    let r = replace_chars(&n, &lib_extension_chars(), &header_extension_chars());
    string_from_chars(r.as_slice())
}

/// The signature of the first `n` bytes: each byte, shifted left by its
/// index modulo 8, folded in with exclusive or.
pub open spec fn signature_upto(bin: Seq<u8>, n: int) -> u64
    decreases n,
{
    if n <= 0 {
        0
    } else {
        signature_upto(bin, n - 1) ^ ((bin[n - 1] as u64) << (((n - 1) % 8) as u64))
    }
}

/// The signature of a library binary.
pub open spec fn signature(bin: Seq<u8>) -> u64 {
    signature_upto(bin, bin.len() as int)
}

/// Computes the signature of a library binary.
pub fn signature_of(bin: &[u8]) -> (sig: u64)
    ensures
        sig == signature(bin@),
{
    let mut acc: u64 = 0;
    let mut i: usize = 0;
    while i < bin.len()
        invariant
            i <= bin.len(),
            acc == signature_upto(bin@, i as int),
        decreases bin.len() - i,
    {
        let shift: u64 = (i % 8) as u64;
        acc = acc ^ ((bin[i] as u64) << shift);
        i = i + 1;
    }
    acc
}

/// The upper-case hexadecimal digits in order of value.
pub open spec fn hex_alphabet() -> Seq<char> {
    seq!['0', '1', '2', '3', '4', '5', '6', '7', '8', '9', 'A', 'B', 'C', 'D', 'E', 'F']
}

/// The upper-case hexadecimal digit for `d < 16`.
pub open spec fn hex_digit(d: nat) -> char {
    hex_alphabet()[d as int]
}

/// The last `n` hexadecimal digits of `x`, upper case, with leading zeros.
pub open spec fn hex_digits(x: nat, n: nat) -> Seq<char>
    decreases n,
{
    if n == 0 {
        seq![]
    } else {
        hex_digits(x / 16, (n - 1) as nat).push(hex_digit(x % 16))
    }
}

/// `format!("{:016X}", x)`: since `x < 16^16`, exactly its sixteen digits.
pub open spec fn hex16(x: u64) -> Seq<char> {
    hex_digits(x as nat, 16)
}

fn hex_digit_char(d: u64) -> (c: char)
    requires
        d < 16,
    ensures
        c == hex_digit(d as nat),
{
    let table = vec!['0', '1', '2', '3', '4', '5', '6', '7', '8', '9', 'A', 'B', 'C', 'D', 'E', 'F'];
    proof {
        assert(table@ =~= hex_alphabet());
    }
    table[d as usize]
}

fn hex_digits_chars(x: u64, n: usize) -> (r: Vec<char>)
    ensures
        r@ == hex_digits(x as nat, n as nat),
    decreases n,
{
    if n == 0 {
        Vec::new()
    } else {
        let mut r = hex_digits_chars(x / 16, n - 1);
        r.push(hex_digit_char(x % 16));
        r
    }
}

/// A signature as sixteen upper-case hexadecimal digits.
pub fn signature_hex(sig: u64) -> (s: String)
    ensures
        s@ == hex16(sig),
{
    let r = hex_digits_chars(sig, 16);
    string_from_chars(r.as_slice())
}

/// The first of `ls` that begins with `p`.
pub open spec fn first_with_prefix(ls: Seq<Seq<char>>, p: Seq<char>) -> Option<Seq<char>>
    decreases ls.len(),
{
    if ls.len() == 0 {
        None
    } else if has_prefix(ls[0], p) {
        Some(ls[0])
    } else {
        first_with_prefix(ls.drop_first(), p)
    }
}

/// The signature a header stores: on its first line that begins with
/// `// SIG:`, what follows that marker (repeated markers removed), trimmed;
/// empty when no line has the marker.
pub open spec fn stored_signature_of(header: Seq<char>) -> Seq<char> {
    match first_with_prefix(lines(header), sig_marker()) {
        Some(l) => trim(strip_repeated(l, sig_marker())),
        None => seq![],
    }
}

/// The signature stored in a library header.
pub fn stored_signature(header: &str) -> (sig: String)
    ensures
        sig@ == stored_signature_of(header@),
{
    let s = chars_of(header);
    let marker = sig_marker_chars();
    let mut pos: usize = 0;
    while pos < s.len()
        invariant
            first_with_prefix(lines(s@), sig_marker()) == first_with_prefix(
                lines_from(s@, pos as int),
                sig_marker(),
            ),
            marker@ == sig_marker(),
            s@ == header@,
            pos <= s.len(),
        decreases s.len() - pos,
    {
        let (line, e) = next_line(&s, pos);
        let ghost ls = lines_from(s@, pos as int);
        proof {
            assert(ls[0] == line@);
            assert(ls.drop_first() =~= lines_from(s@, e + 1));
        }
        proof {
            assert(line@.skip(0) =~= line@);
        }
        if prefix_at(&line, 0, &marker) {
            proof {
                assert(first_with_prefix(ls, sig_marker()) == Some(line@));
            }
            let stripped = strip_repeated_chars(&line, &marker);
            let t = trim_chars(&stripped);
            return string_from_chars(t.as_slice());
        }
        proof {
            assert(first_with_prefix(ls, sig_marker()) == first_with_prefix(
                lines_from(s@, e + 1),
                sig_marker(),
            ));
        }
        if e >= s.len() {
            proof {
                assert(lines_from(s@, e + 1) =~= Seq::<Seq<char>>::empty());
            }
            return String::new();
        }
        pos = e + 1;
    }
    proof {
        assert(lines_from(s@, pos as int) =~= Seq::<Seq<char>>::empty());
    }
    String::new()
}

/// The outcome of checking a library binary against its header.
#[derive(Debug, Clone, PartialEq, Eq)]
pub enum SignatureCheck {
    /// There is no header file: installation goes ahead with a warning.
    MissingHeader,
    /// The header stores no signature: installation goes ahead.
    Unsigned,
    /// The stored signature is that of the binary.
    Verified,
    /// The stored signature differs from the one computed from the binary.
    Mismatch { expected: String, computed: String },
}

pub enum SignatureCheckView {
    MissingHeader,
    Unsigned,
    Verified,
    Mismatch { expected: Seq<char>, computed: Seq<char> },
}

impl View for SignatureCheck {
    type V = SignatureCheckView;

    open spec fn view(&self) -> SignatureCheckView {
        match self {
            SignatureCheck::MissingHeader => SignatureCheckView::MissingHeader,
            SignatureCheck::Unsigned => SignatureCheckView::Unsigned,
            SignatureCheck::Verified => SignatureCheckView::Verified,
            SignatureCheck::Mismatch { expected, computed } => SignatureCheckView::Mismatch {
                expected: expected@,
                computed: computed@,
            },
        }
    }
}

/// The verdict on a binary, given its header's text when there is a header.
pub open spec fn signature_verdict(header: Option<Seq<char>>, bin: Seq<u8>) -> SignatureCheckView {
    match header {
        None => SignatureCheckView::MissingHeader,
        Some(h) => {
            let stored = stored_signature_of(h);
            if stored.len() == 0 {
                SignatureCheckView::Unsigned
            } else if stored == hex16(signature(bin)) {
                SignatureCheckView::Verified
            } else {
                SignatureCheckView::Mismatch { expected: stored, computed: hex16(signature(bin)) }
            }
        },
    }
}

/// Whether a verdict lets the installation go ahead.
pub open spec fn verdict_allows(v: SignatureCheckView) -> bool {
    !(v is Mismatch)
}

/// Whether two strings hold the same characters.
fn same_text(a: &String, b: &String) -> (r: bool)
    ensures
        r == (a@ == b@),
{
    let sa = a.as_str();
    let sb = b.as_str();
    let n = sa.unicode_len();
    if n != sb.unicode_len() {
        return false;
    }
    let mut i: usize = 0;
    while i < n
        invariant
            n == a@.len(),
            n == b@.len(),
            sa@ == a@,
            sb@ == b@,
            i <= n,
            forall|j: int| 0 <= j < i ==> a@[j] == b@[j],
        decreases n - i,
    {
        if sa.get_char(i) != sb.get_char(i) {
            return false;
        }
        i = i + 1;
    }
    assert(a@ =~= b@);
    true
}

/// Checks a library binary against the signature in its header; `header`
/// is the header's text, or `None` when the header file does not exist.
pub fn check_signature(header: Option<&str>, bin: &[u8]) -> (v: SignatureCheck)
    ensures
        v@ == signature_verdict(
            match header {
                Some(h) => Some(h@),
                None => None,
            },
            bin@,
        ),
{
    match header {
        None => SignatureCheck::MissingHeader,
        Some(h) => {
            let stored = stored_signature(h);
            if stored.as_str().unicode_len() == 0 {
                return SignatureCheck::Unsigned;
            }
            let computed = signature_hex(signature_of(bin));
            if same_text(&stored, &computed) {
                SignatureCheck::Verified
            } else {
                SignatureCheck::Mismatch { expected: stored, computed }
            }
        },
    }
}

impl SignatureCheck {
    /// Whether the installation may go ahead.
    pub fn allows_install(&self) -> (b: bool)
        ensures
            b == verdict_allows(self@),
    {
        match self {
            SignatureCheck::Mismatch { .. } => false,
            _ => true,
        }
    }
}

/// The dependency a manifest line names: the part before its first `=`,
/// trimmed, with every double quote removed.
pub open spec fn dependency_of(line: Seq<char>) -> Seq<char> {
    replace_all(trim(before_char(line, '=')), seq!['"'], seq![])
}

/// The dependencies named by manifest lines, `in_deps` telling whether the
/// lines before were inside the `[dependencies]` section. Lines are taken
/// trimmed; a `[dependencies]` line opens the section, any other line that
/// begins with `[` closes it, and inside it every line holding `=` names one.
pub open spec fn dependencies_in(ls: Seq<Seq<char>>, in_deps: bool) -> Seq<Seq<char>>
    decreases ls.len(),
{
    if ls.len() == 0 {
        seq![]
    } else {
        let line = trim(ls[0]);
        if line == deps_section() {
            dependencies_in(ls.drop_first(), true)
        } else {
            let inside = if has_prefix(line, seq!['[']) {
                false
            } else {
                in_deps
            };
            if inside && line.contains('=') {
                seq![dependency_of(line)] + dependencies_in(ls.drop_first(), inside)
            } else {
                dependencies_in(ls.drop_first(), inside)
            }
        }
    }
}

pub open spec fn strings_view(v: Seq<String>) -> Seq<Seq<char>> {
    v.map_values(|s: String| s@)
}

fn contains_char(s: &Vec<char>, c: char) -> (b: bool)
    ensures
        b == s@.contains(c),
{
    let mut i: usize = 0;
    while i < s.len()
        invariant
            i <= s.len(),
            forall|j: int| 0 <= j < i ==> s@[j] != c,
        decreases s.len() - i,
    {
        if s[i] == c {
            return true;
        }
        i = i + 1;
    }
    false
}

fn chars_equal(a: &Vec<char>, b: &Vec<char>) -> (r: bool)
    ensures
        r == (a@ == b@),
{
    if a.len() != b.len() {
        return false;
    }
    let r = prefix_at(a, 0, b);
    proof {
        assert(a@.skip(0) =~= a@);
        assert(a@.take(b.len() as int) =~= a@);
    }
    r
}

/// The dependencies a `six.toml` manifest names, in order.
pub fn dependency_names(manifest: &str) -> (names: Vec<String>)
    ensures
        strings_view(names@) == dependencies_in(lines(manifest@), false),
{
    let s = chars_of(manifest);
    let section = deps_section_chars();
    let mut names: Vec<String> = Vec::new();
    let mut in_deps = false;
    let mut pos: usize = 0;
    while pos < s.len()
        invariant
            pos <= s.len(),
            section@ == deps_section(),
            s@ == manifest@,
            strings_view(names@) + dependencies_in(lines_from(s@, pos as int), in_deps)
                == dependencies_in(lines(s@), false),
        decreases s.len() - pos,
    {
        let (raw, e) = next_line(&s, pos);
        let ghost ls = lines_from(s@, pos as int);
        let ghost before = strings_view(names@);
        proof {
            assert(ls[0] == raw@);
            assert(ls.drop_first() =~= lines_from(s@, e + 1));
        }
        let line = trim_chars(&raw);
        let ghost was_in = in_deps;
        let ghost rest = lines_from(s@, e + 1);
        if chars_equal(&line, &section) {
            in_deps = true;
            proof {
                assert(dependencies_in(ls, was_in) == dependencies_in(rest, true));
            }
        } else {
            proof {
                if line@.len() > 0 && line@[0] == '[' {
                    assert(line@.take(1) =~= seq!['[']);
                }
                if has_prefix(line@, seq!['[']) {
                    assert(line@.take(1)[0] == line@[0]);
                }
            }
            if line.len() > 0 && line[0] == '[' {
                in_deps = false;
            }
            if in_deps && contains_char(&line, '=') {
                let key = before_char_chars(&line, '=');
                let key = trim_chars(&key);
                let quote = vec!['"'];
                let nothing: Vec<char> = Vec::new();
                proof {
                    assert(quote@ =~= seq!['"']);
                    assert(nothing@ =~= Seq::<char>::empty());
                }
                let name = replace_chars(&key, &quote, &nothing);
                let name = string_from_chars(name.as_slice());
                names.push(name);
                proof {
                    assert(dependencies_in(ls, was_in) == seq![dependency_of(line@)]
                        + dependencies_in(rest, in_deps));
                    assert(strings_view(names@) =~= before.push(dependency_of(line@)));
                    assert(before.push(dependency_of(line@)) + dependencies_in(rest, in_deps)
                        =~= before + (seq![dependency_of(line@)] + dependencies_in(
                        rest,
                        in_deps,
                    )));
                }
            } else {
                proof {
                    assert(dependencies_in(ls, was_in) == dependencies_in(rest, in_deps));
                }
            }
        }
        if e >= s.len() {
            proof {
                assert(lines_from(s@, e + 1) =~= Seq::<Seq<char>>::empty());
                assert(strings_view(names@) + Seq::<Seq<char>>::empty() =~= strings_view(
                    names@,
                ));
            }
            return names;
        }
        pos = e + 1;
    }
    proof {
        assert(lines_from(s@, pos as int) =~= Seq::<Seq<char>>::empty());
        assert(strings_view(names@) + Seq::<Seq<char>>::empty() =~= strings_view(names@));
    }
    names
}

} // verus!

verus! {

/// The value of an upper-case hexadecimal digit.
pub open spec fn hex_value(c: char) -> int {
    if '0' <= c && c <= '9' {
        c as int - '0' as int
    } else {
        c as int - 'A' as int + 10
    }
}

/// The number an upper-case hexadecimal numeral denotes.
pub open spec fn numeral_value(s: Seq<char>) -> int
    decreases s.len(),
{
    if s.len() == 0 {
        0
    } else {
        numeral_value(s.drop_last()) * 16 + hex_value(s.last())
    }
}

pub open spec fn pow16(n: nat) -> int
    decreases n,
{
    if n == 0 {
        1
    } else {
        16 * pow16((n - 1) as nat)
    }
}

proof fn lemma_hex_digit_value(d: nat)
    requires
        d < 16,
    ensures
        hex_value(hex_digit(d)) == d,
{
    let a = hex_alphabet();
    assert(a[0] == '0' && a[1] == '1' && a[2] == '2' && a[3] == '3');
    assert(a[4] == '4' && a[5] == '5' && a[6] == '6' && a[7] == '7');
    assert(a[8] == '8' && a[9] == '9' && a[10] == 'A' && a[11] == 'B');
    assert(a[12] == 'C' && a[13] == 'D' && a[14] == 'E' && a[15] == 'F');
    if d == 0 {
    } else if d == 1 {
    } else if d == 2 {
    } else if d == 3 {
    } else if d == 4 {
    } else if d == 5 {
    } else if d == 6 {
    } else if d == 7 {
    } else if d == 8 {
    } else if d == 9 {
    } else if d == 10 {
    } else if d == 11 {
    } else if d == 12 {
    } else if d == 13 {
    } else if d == 14 {
    } else {
    }
}

proof fn lemma_pow16_positive(n: nat)
    ensures
        pow16(n) > 0,
    decreases n,
{
    if n > 0 {
        lemma_pow16_positive((n - 1) as nat);
    }
}

/// The numeral of the last `n` digits of `x` denotes `x` modulo `16^n`.
proof fn lemma_hex_digits_value(x: nat, n: nat)
    ensures
        numeral_value(hex_digits(x, n)) == (x as int) % pow16(n),
    decreases n,
{
    if n > 0 {
        let m = (n - 1) as nat;
        lemma_hex_digits_value(x / 16, m);
        lemma_hex_digit_value(x % 16);
        lemma_pow16_positive(m);
        let s = hex_digits(x, n);
        assert(s.drop_last() =~= hex_digits(x / 16, m));
        vstd::arithmetic::div_mod::lemma_breakdown(x as int, 16, pow16(m));
        assert(numeral_value(s) == ((x as int / 16) % pow16(m)) * 16 + x % 16);
        assert(16 * ((x as int / 16) % pow16(m)) == ((x as int / 16) % pow16(m)) * 16);
    }
}

/// Different signatures print differently.
pub proof fn lemma_hex16_injective(a: u64, b: u64)
    requires
        hex16(a) == hex16(b),
    ensures
        a == b,
{
    lemma_hex_digits_value(a as nat, 16);
    lemma_hex_digits_value(b as nat, 16);
    assert(pow16(16) == 0x1_0000_0000_0000_0000) by {
        reveal_with_fuel(pow16, 17);
    }
    vstd::arithmetic::div_mod::lemma_small_mod(a as nat, pow16(16) as nat);
    vstd::arithmetic::div_mod::lemma_small_mod(b as nat, pow16(16) as nat);
}

/// Law: a header vouches for one signature only. If the header verifies one
/// binary, it verifies exactly the binaries with the same signature, and
/// blocks every binary whose signature differs.
pub proof fn law_header_vouches_for_one_signature(header: Seq<char>, signed: Seq<u8>, other: Seq<u8>)
    requires
        signature_verdict(Some(header), signed) == SignatureCheckView::Verified,
    ensures
        signature(other) == signature(signed) ==> signature_verdict(Some(header), other)
            == SignatureCheckView::Verified,
        signature(other) != signature(signed) ==> !verdict_allows(
            signature_verdict(Some(header), other),
        ),
{
    if signature(other) != signature(signed) {
        if hex16(signature(other)) == hex16(signature(signed)) {
            lemma_hex16_injective(signature(other), signature(signed));
        }
    }
}

} // verus!

verus! {

/// Where an installation stands.
#[derive(Debug, Clone, Copy, PartialEq, Eq, Structural)]
pub enum InstallStage {
    /// Looking through the local registries.
    Local,
    /// Looking through the remote registry's listing.
    Remote,
    /// The remote registry's matching file was handled; `installed` tells
    /// whether it was installed.
    Closing { installed: bool },
    /// Nothing more to do.
    Finished,
}

/// The state of installing one package.
pub struct InstallState {
    pub stem: String,
    pub found: bool,
    pub stage: InstallStage,
}

pub struct InstallStateView {
    pub stem: Seq<char>,
    pub found: bool,
    pub stage: InstallStage,
}

impl View for InstallState {
    type V = InstallStateView;

    open spec fn view(&self) -> InstallStateView {
        InstallStateView { stem: self.stem@, found: self.found, stage: self.stage }
    }
}

/// What the outside world reports to the installer.
pub enum InstallEvent {
    /// A file of a local registry, by name.
    LocalFile(String),
    /// The signature check of the file last asked about: whether it allows
    /// the installation.
    LocalChecked(bool),
    /// Every local registry has been listed.
    LocalDone,
    /// A name in the remote registry's listing.
    RemoteFile(String),
    /// Whether the download of the file last asked for worked.
    RemoteFetched(bool),
    /// The signature check of the downloaded file: whether it allows the
    /// installation.
    RemoteChecked(bool),
    /// The remote listing has ended, or was left.
    RemoteDone,
}

pub enum InstallEventView {
    LocalFile(Seq<char>),
    LocalChecked(bool),
    LocalDone,
    RemoteFile(Seq<char>),
    RemoteFetched(bool),
    RemoteChecked(bool),
    RemoteDone,
}

impl View for InstallEvent {
    type V = InstallEventView;

    open spec fn view(&self) -> InstallEventView {
        match self {
            InstallEvent::LocalFile(n) => InstallEventView::LocalFile(n@),
            InstallEvent::LocalChecked(b) => InstallEventView::LocalChecked(*b),
            InstallEvent::LocalDone => InstallEventView::LocalDone,
            InstallEvent::RemoteFile(n) => InstallEventView::RemoteFile(n@),
            InstallEvent::RemoteFetched(b) => InstallEventView::RemoteFetched(*b),
            InstallEvent::RemoteChecked(b) => InstallEventView::RemoteChecked(*b),
            InstallEvent::RemoteDone => InstallEventView::RemoteDone,
        }
    }
}

/// What the installer asks the outside world to do next.
#[derive(Debug, Clone, Copy, PartialEq, Eq, Structural)]
pub enum InstallAction {
    /// Nothing, for this event.
    Skip,
    /// Check the signature of the file just named.
    Check,
    /// Copy the checked file into `libs/`.
    Install,
    /// A local file failed its check: stop, installing nothing more.
    Abort,
    /// No local file was installed: list the remote registry.
    SearchRegistry,
    /// Download the file just named, with its header.
    Fetch,
    /// Report that the download failed.
    DownloadFailed,
    /// The package is installed; nothing more to do.
    Done,
    /// Report that the package was found neither locally nor remotely.
    NotFound,
}

/// The first state of installing `package`.
pub open spec fn install_start(package: Seq<char>) -> InstallStateView {
    InstallStateView { stem: package_stem_of(package), found: false, stage: InstallStage::Local }
}

pub open spec fn matches_stem(name: Seq<char>, stem: Seq<char>) -> bool {
    has_prefix(name, stem) && has_suffix(name, lib_extension())
}

/// One decision of the installer: the next state and what to do. Local files
/// of the package are checked and installed in turn, and the first that
/// fails its check stops everything; the remote registry is searched only
/// when no local file was installed, and only its first matching file is
/// fetched; an event out of place changes nothing.
pub open spec fn install_step(st: InstallStateView, ev: InstallEventView) -> (
    InstallStateView,
    InstallAction,
) {
    let unchanged = (st, InstallAction::Skip);
    match st.stage {
        InstallStage::Local => match ev {
            InstallEventView::LocalFile(n) => if matches_stem(n, st.stem) {
                (st, InstallAction::Check)
            } else {
                unchanged
            },
            InstallEventView::LocalChecked(ok) => if ok {
                (InstallStateView { found: true, ..st }, InstallAction::Install)
            } else {
                (InstallStateView { stage: InstallStage::Finished, ..st }, InstallAction::Abort)
            },
            InstallEventView::LocalDone => if st.found {
                (InstallStateView { stage: InstallStage::Finished, ..st }, InstallAction::Done)
            } else {
                (
                    InstallStateView { stage: InstallStage::Remote, ..st },
                    InstallAction::SearchRegistry,
                )
            },
            _ => unchanged,
        },
        InstallStage::Remote => match ev {
            InstallEventView::RemoteFile(n) => if matches_stem(n, st.stem) {
                (st, InstallAction::Fetch)
            } else {
                unchanged
            },
            InstallEventView::RemoteFetched(ok) => if ok {
                (st, InstallAction::Check)
            } else {
                (
                    InstallStateView { stage: InstallStage::Closing { installed: false }, ..st },
                    InstallAction::DownloadFailed,
                )
            },
            InstallEventView::RemoteChecked(ok) => (
                InstallStateView { stage: InstallStage::Closing { installed: ok }, ..st },
                if ok {
                    InstallAction::Install
                } else {
                    InstallAction::Skip
                },
            ),
            InstallEventView::RemoteDone => (
                InstallStateView { stage: InstallStage::Finished, ..st },
                InstallAction::NotFound,
            ),
            _ => unchanged,
        },
        InstallStage::Closing { installed } => match ev {
            InstallEventView::RemoteDone => (
                InstallStateView { stage: InstallStage::Finished, ..st },
                if installed {
                    InstallAction::Done
                } else {
                    InstallAction::NotFound
                },
            ),
            _ => unchanged,
        },
        InstallStage::Finished => unchanged,
    }
}

impl InstallState {
    /// The first state of installing `package` (such as `@scope/name`).
    pub fn new(package: &str) -> (st: InstallState)
        ensures
            st@ == install_start(package@),
    {
        InstallState { stem: package_stem(package), found: false, stage: InstallStage::Local }
    }

    /// Whether listings should still be walked: the local ones while
    /// looking locally, the remote one until its matching file was handled.
    pub fn wants_more(&self) -> (b: bool)
        ensures
            b == (self@.stage == InstallStage::Local || self@.stage == InstallStage::Remote),
    {
        match self.stage {
            InstallStage::Local | InstallStage::Remote => true,
            _ => false,
        }
    }
}

/// Takes one decision of the installer.
pub fn install_next(st: &InstallState, ev: InstallEvent) -> (r: (InstallState, InstallAction))
    ensures
        (r.0@, r.1) == install_step(st@, ev@),
{
    let stem = st.stem.clone();
    let same = InstallState { stem: st.stem.clone(), found: st.found, stage: st.stage };
    match st.stage {
        InstallStage::Local => match ev {
            InstallEvent::LocalFile(n) => if is_package_file(n.as_str(), stem.as_str()) {
                (same, InstallAction::Check)
            } else {
                (same, InstallAction::Skip)
            },
            InstallEvent::LocalChecked(ok) => if ok {
                (InstallState { stem, found: true, stage: st.stage }, InstallAction::Install)
            } else {
                (
                    InstallState { stem, found: st.found, stage: InstallStage::Finished },
                    InstallAction::Abort,
                )
            },
            InstallEvent::LocalDone => if st.found {
                (
                    InstallState { stem, found: st.found, stage: InstallStage::Finished },
                    InstallAction::Done,
                )
            } else {
                (
                    InstallState { stem, found: st.found, stage: InstallStage::Remote },
                    InstallAction::SearchRegistry,
                )
            },
            _ => (same, InstallAction::Skip),
        },
        InstallStage::Remote => match ev {
            InstallEvent::RemoteFile(n) => if is_package_file(n.as_str(), stem.as_str()) {
                (same, InstallAction::Fetch)
            } else {
                (same, InstallAction::Skip)
            },
            InstallEvent::RemoteFetched(ok) => if ok {
                (same, InstallAction::Check)
            } else {
                (
                    InstallState {
                        stem,
                        found: st.found,
                        stage: InstallStage::Closing { installed: false },
                    },
                    InstallAction::DownloadFailed,
                )
            },
            InstallEvent::RemoteChecked(ok) => (
                InstallState { stem, found: st.found, stage: InstallStage::Closing { installed: ok } },
                if ok {
                    InstallAction::Install
                } else {
                    InstallAction::Skip
                },
            ),
            InstallEvent::RemoteDone => (
                InstallState { stem, found: st.found, stage: InstallStage::Finished },
                InstallAction::NotFound,
            ),
            _ => (same, InstallAction::Skip),
        },
        InstallStage::Closing { installed } => match ev {
            InstallEvent::RemoteDone => (
                InstallState { stem, found: st.found, stage: InstallStage::Finished },
                if installed {
                    InstallAction::Done
                } else {
                    InstallAction::NotFound
                },
            ),
            _ => (same, InstallAction::Skip),
        },
        InstallStage::Finished => (same, InstallAction::Skip),
    }
}

/// Law: a local file that fails its check stops the installation for good:
/// every later event is skipped.
pub proof fn law_failed_check_stops(st: InstallStateView, later: Seq<InstallEventView>)
    requires
        st.stage == InstallStage::Local,
    ensures
        install_step(st, InstallEventView::LocalChecked(false)).1 == InstallAction::Abort,
        ({
            let s1 = install_step(st, InstallEventView::LocalChecked(false)).0;
            forall|i: int| 0 <= i < later.len() ==> install_step(s1, #[trigger] later[i]) == (
                s1,
                InstallAction::Skip,
            )
        }),
{
}

/// Law: the remote registry is searched exactly when the local search ends
/// with nothing installed.
pub proof fn law_registry_only_when_nothing_local(st: InstallStateView)
    requires
        st.stage == InstallStage::Local,
    ensures
        (install_step(st, InstallEventView::LocalDone).1 == InstallAction::SearchRegistry) == !st.found,
{
}

} // verus!
