//! The decisions of coverage collection that need no tool: which files of
//! a cargo build are test binaries, which profile files a name pattern
//! selects, which flag asks `cargo llvm-cov` for a format, and how many
//! lines of a source file are code.
//!
//! Running the tools, reading directories and comparing percentages is
//! left to the caller.

use vstd::prelude::*;
use crate::model::text::{
    chars_eq, is_space, is_space_exec, owned, slice_chars, split_once, split_once_exec, trim_start, chars_of, contains_exec, contains_seq, lines, push_str, split_lines, starts_with, starts_with_exec,
    string_from_chars, string_views, trim, trim_end_char, trim_end_char_exec, trim_exec, views,
};
use crate::model::CoverageFormat;

verus! {

// ---------------------------------------------------------------------------
// Source lines
// ---------------------------------------------------------------------------

/// A line counts as code unless it is blank or a `//` comment.
pub open spec fn is_code_line(l: Seq<char>) -> bool {
    trim(l).len() > 0 && !starts_with(trim(l), "//"@)
}

/// The number of code lines among `ls`.
pub open spec fn code_lines(ls: Seq<Seq<char>>) -> nat
    decreases ls.len(),
{
    if ls.len() == 0 {
        0
    } else {
        code_lines(ls.drop_last()) + (if is_code_line(ls.last()) { 1nat } else { 0nat })
    }
}

proof fn lemma_code_lines_bound(ls: Seq<Seq<char>>)
    ensures
        code_lines(ls) <= ls.len(),
    decreases ls.len(),
{
    if ls.len() > 0 {
        lemma_code_lines_bound(ls.drop_last());
    }
}

/// The number of lines of `content` that are neither blank nor `//`
/// comments.
pub fn count_code_lines(content: &str) -> (r: usize)
    ensures
        r == code_lines(lines(content@)),
{
    let ls = split_lines(&chars_of(content));
    let ghost lv = views(ls@);
    let slashes = chars_of("//");
    let mut n: usize = 0;
    let mut i: usize = 0;
    while i < ls.len()
        invariant
            i <= ls@.len(),
            lv == views(ls@),
            lv == lines(content@),
            slashes@ == "//"@,
            n == code_lines(lv.take(i as int)),
        decreases ls@.len() - i,
    {
        proof {
            assert(lv.take(i + 1).drop_last() =~= lv.take(i as int));
            assert(lv.take(i + 1).last() == ls@[i as int]@);
            lemma_code_lines_bound(lv.take(i as int));
        }
        let t = trim_exec(&ls[i]);
        if t.len() > 0 && !starts_with_exec(&t, &slashes) {
            n = n + 1;
        }
        i = i + 1;
    }
    proof {
        assert(lv.take(i as int) =~= lv);
    }
    n
}

// ---------------------------------------------------------------------------
// File selection
// ---------------------------------------------------------------------------

/// A file name matches a pattern when it contains the pattern without its
/// trailing `*`s.
pub open spec fn glob_match(name: Seq<char>, pattern: Seq<char>) -> bool {
    contains_seq(name, trim_end_char(pattern, '*'))
}

/// Whether file name `name` matches `pattern` (such as `default_*`).
pub fn matches_pattern(name: &str, pattern: &str) -> (r: bool)
    ensures
        r == glob_match(name@, pattern@),
{
    let stem = trim_end_char_exec(&chars_of(pattern), '*');
    contains_exec(&chars_of(name), &stem)
}

/// A line of the JSON messages of a cargo build, as far as coverage reads
/// it: why the message was sent, the files it names, the kinds of the
/// target, and whether it was built as a test (when the message says).
pub struct CargoArtifact {
    pub reason: String,
    pub filenames: Vec<String>,
    pub target_kind: Vec<String>,
    pub profile_test: Option<bool>,
}

/// The message reports a built artifact.
pub open spec fn is_built(a: CargoArtifact) -> bool {
    a.reason@ == "compiler-artifact"@
}

/// The message reports a built test executable: built as a test, or of a
/// `bin` or `test` target.
pub open spec fn is_test_executable(a: CargoArtifact) -> bool {
    &&& is_built(a)
    &&& (a.profile_test == Some(true) || exists|k: int|
        0 <= k < a.target_kind@.len() && (#[trigger] a.target_kind@[k]@ == "bin"@ || a.target_kind@[k]@ == "test"@))
}

/// The files named by the selected messages, in order: those reporting a
/// built artifact, or only a test executable when `tests_only`.
pub open spec fn artifact_files(arts: Seq<CargoArtifact>, tests_only: bool) -> Seq<Seq<char>>
    decreases arts.len(),
{
    if arts.len() == 0 {
        Seq::empty()
    } else {
        artifact_files(arts.drop_last(), tests_only) + (if (if tests_only {
            is_test_executable(arts.last())
        } else {
            is_built(arts.last())
        }) {
            string_views(arts.last().filenames@)
        } else {
            Seq::empty()
        })
    }
}

/// Whether a message is selected.
fn selected(a: &CargoArtifact, tests_only: bool) -> (r: bool)
    ensures
        r == (if tests_only { is_test_executable(*a) } else { is_built(*a) }),
{
    let built = a.reason == owned("compiler-artifact");
    if !tests_only || !built {
        return built;
    }
    if a.profile_test == Some(true) {
        return true;
    }
    let bin = owned("bin");
    let test = owned("test");
    let mut k: usize = 0;
    while k < a.target_kind.len()
        invariant
            k <= a.target_kind@.len(),
            tests_only,
            is_built(*a),
            bin@ == "bin"@,
            test@ == "test"@,
            forall|j: int| 0 <= j < k ==> a.target_kind@[j]@ != "bin"@ && a.target_kind@[j]@ != "test"@,
        decreases a.target_kind@.len() - k,
    {
        if a.target_kind[k] == bin || a.target_kind[k] == test {
            proof {
                assert(a.target_kind@[k as int]@ == "bin"@ || a.target_kind@[k as int]@ == "test"@);
            }
            return true;
        }
        k = k + 1;
    }
    false
}

/// The files of the selected messages, in order.
fn selected_files(arts: &Vec<CargoArtifact>, tests_only: bool) -> (r: Vec<String>)
    ensures
        string_views(r@) == artifact_files(arts@, tests_only),
{
    let mut r: Vec<String> = Vec::new();
    let mut i: usize = 0;
    while i < arts.len()
        invariant
            i <= arts@.len(),
            string_views(r@) == artifact_files(arts@.take(i as int), tests_only),
        decreases arts@.len() - i,
    {
        proof {
            assert(arts@.take(i + 1).drop_last() =~= arts@.take(i as int));
            assert(arts@.take(i + 1).last() == arts@[i as int]);
        }
        let a = &arts[i];
        if selected(a, tests_only) {
            let ghost start = string_views(r@);
            let mut k: usize = 0;
            while k < a.filenames.len()
                invariant
                    k <= a.filenames@.len(),
                    string_views(r@) == start + string_views(a.filenames@.take(k as int)),
                decreases a.filenames@.len() - k,
            {
                let ghost before = r@;
                r.push(a.filenames[k].clone());
                proof {
                    assert(r@ == before.push(a.filenames@[k as int]));
                    assert(string_views(r@) =~= string_views(before).push(a.filenames@[k as int]@));
                    assert(string_views(a.filenames@.take(k + 1)) =~= string_views(a.filenames@.take(k as int)).push(
                        a.filenames@[k as int]@,
                    ));
                    assert(string_views(r@) =~= start + string_views(a.filenames@.take(k + 1)));
                }
                k = k + 1;
            }
            proof {
                assert(a.filenames@.take(k as int) =~= a.filenames@);
            }
        }
        proof {
            assert(string_views(r@) =~= artifact_files(arts@.take(i + 1), tests_only));
        }
        i = i + 1;
    }
    proof {
        assert(arts@.take(i as int) =~= arts@);
    }
    r
}

/// The files the `compiler-artifact` messages name, in order: the
/// candidates for test binaries of an instrumented build.
pub fn compiler_artifact_files(arts: &Vec<CargoArtifact>) -> (r: Vec<String>)
    ensures
        string_views(r@) == artifact_files(arts@, false),
{
    selected_files(arts, false)
}

/// The files of the messages reporting test executables, in order.
pub fn test_executable_files(arts: &Vec<CargoArtifact>) -> (r: Vec<String>)
    ensures
        string_views(r@) == artifact_files(arts@, true),
{
    selected_files(arts, true)
}

// ---------------------------------------------------------------------------
// cargo-llvm-cov
// ---------------------------------------------------------------------------

/// The `cargo llvm-cov` flag that asks for a report format.
pub open spec fn format_flag(format: CoverageFormat) -> Seq<char> {
    match format {
        CoverageFormat::Summary => "--summary-only"@,
        CoverageFormat::Html => "--html"@,
        CoverageFormat::Lcov => "--lcov"@,
        CoverageFormat::Json => "--json"@,
        CoverageFormat::Cobertura => "--cobertura"@,
    }
}

/// The `cargo llvm-cov` flag for `format`.
pub fn llvm_cov_format_flag(format: CoverageFormat) -> (r: String)
    ensures
        r@ == format_flag(format),
{
    let mut v: Vec<char> = Vec::new();
    match format {
        CoverageFormat::Summary => push_str(&mut v, "--summary-only"),
        CoverageFormat::Html => push_str(&mut v, "--html"),
        CoverageFormat::Lcov => push_str(&mut v, "--lcov"),
        CoverageFormat::Json => push_str(&mut v, "--json"),
        CoverageFormat::Cobertura => push_str(&mut v, "--cobertura"),
    }
    proof {
        assert(v@ =~= format_flag(format));
    }
    string_from_chars(&v)
}

/// Only the summary format is printed rather than written to the output
/// directory.
pub fn writes_report_file(format: CoverageFormat) -> (r: bool)
    ensures
        r == !(format is Summary),
{
    match format {
        CoverageFormat::Summary => false,
        _ => true,
    }
}

/// The `llvm-cov show` format that writes a report file, for the formats
/// `llvm-cov` can write itself (`Json` asks for its text form).
pub open spec fn show_format(format: CoverageFormat) -> Option<Seq<char>> {
    match format {
        CoverageFormat::Html => Some("html"@),
        CoverageFormat::Lcov => Some("lcov"@),
        CoverageFormat::Json => Some("text"@),
        _ => None,
    }
}

/// The `llvm-cov show` format for `format`, if `llvm-cov` writes it.
pub fn llvm_show_format(format: CoverageFormat) -> (r: Option<String>)
    ensures
        match show_format(format) {
            Some(f) => r matches Some(x) && x@ == f,
            None => r is None,
        },
{
    match format {
        CoverageFormat::Html => Some(owned("html")),
        CoverageFormat::Lcov => Some(owned("lcov")),
        CoverageFormat::Json => Some(owned("text")),
        _ => None,
    }
}

// ---------------------------------------------------------------------------
// The compiler's version
// ---------------------------------------------------------------------------

/// The number of leading characters of `s` that are not white space.
pub open spec fn word_len(s: Seq<char>) -> nat
    decreases s.len(),
{
    if s.len() > 0 && !is_space(s[0]) { 1 + word_len(s.drop_first()) } else { 0 }
}

/// The second white-space separated word of `s`.
pub open spec fn second_word(s: Seq<char>) -> Option<Seq<char>> {
    let t1 = trim_start(s);
    let t2 = trim_start(t1.skip(word_len(t1) as int));
    if t1.len() == 0 || t2.len() == 0 { None } else { Some(t2.take(word_len(t2) as int)) }
}

/// The value of a string of decimal digits.
pub open spec fn digits_value(d: Seq<char>) -> int
    decreases d.len(),
{
    if d.len() == 0 { 0 } else { digits_value(d.drop_last()) * 10 + (d.last() as int - '0' as int) }
}

/// All characters are decimal digits.
pub open spec fn all_digits(d: Seq<char>) -> bool {
    forall|i: int| 0 <= i < d.len() ==> '0' <= #[trigger] d[i] <= '9'
}

/// The number below `max` a string denotes, as `str::parse` reads an
/// unsigned integer: an optional `+`, then one or more digits, of a value
/// that fits.
pub open spec fn bounded_value(s: Seq<char>, max: u64) -> Option<u64> {
    let d = if s.len() > 0 && s[0] == '+' { s.drop_first() } else { s };
    if d.len() > 0 && all_digits(d) && digits_value(d) <= max { Some(digits_value(d) as u64) } else { None }
}

/// The `u32` a string denotes, as `str::parse` reads it.
pub open spec fn u32_value(s: Seq<char>) -> Option<u32> {
    match bounded_value(s, u32::MAX as u64) {
        Some(v) => Some(v as u32),
        None => None,
    }
}

/// The major and minor number of a version line such as `rustc 1.96.0`.
pub open spec fn rustc_version(line: Seq<char>) -> Option<(u32, u32)> {
    match second_word(line) {
        Some(v) => match split_once(v, "."@) {
            Some((major, rest)) => {
                let minor = match split_once(rest, "."@) {
                    Some((m, _)) => m,
                    None => rest,
                };
                match (u32_value(major), u32_value(minor)) {
                    (Some(a), Some(b)) => Some((a, b)),
                    _ => None,
                }
            },
            None => None,
        },
        None => None,
    }
}

/// The raw profiles of a compiler can be read when its version line names
/// major version 1 or later and minor version 96 or later.
pub open spec fn raw_profiles_readable(line: Seq<char>) -> bool {
    match rustc_version(line) {
        Some((major, minor)) => major >= 1 && minor >= 96,
        None => false,
    }
}

proof fn lemma_word_len(s: Seq<char>)
    ensures
        word_len(s) <= s.len(),
        forall|i: int| 0 <= i < word_len(s) ==> !is_space(#[trigger] s[i]),
        word_len(s) < s.len() ==> is_space(s[word_len(s) as int]),
    decreases s.len(),
{
    if s.len() > 0 && !is_space(s[0]) {
        lemma_word_len(s.drop_first());
        assert forall|i: int| 0 <= i < word_len(s) implies !is_space(#[trigger] s[i]) by {
            if i > 0 {
                assert(s[i] == s.drop_first()[i - 1]);
            }
        }
    }
}

/// The first word of `v`, from position `from` on, and where it ends.
fn word_at(v: &Vec<char>, from: usize) -> (r: usize)
    requires
        from <= v@.len(),
    ensures
        r == from + word_len(v@.skip(from as int)),
        r <= v@.len(),
{
    let mut i = from;
    proof {
        lemma_word_len(v@.skip(from as int));
    }
    while i < v.len() && !is_space_exec(v[i])
        invariant
            from <= i <= v@.len(),
            word_len(v@.skip(from as int)) == (i - from) + word_len(v@.skip(i as int)),
        decreases v@.len() - i,
    {
        proof {
            assert(v@.skip(i as int).drop_first() =~= v@.skip(i + 1));
        }
        i = i + 1;
    }
    proof {
        lemma_word_len(v@.skip(i as int));
        if i < v@.len() {
            assert(v@.skip(i as int)[0] == v@[i as int]);
        }
    }
    i
}

/// The start of `v` after the white space at `from`.
fn skip_space(v: &Vec<char>, from: usize) -> (r: usize)
    requires
        from <= v@.len(),
    ensures
        r <= v@.len(),
        v@.skip(r as int) == trim_start(v@.skip(from as int)),
{
    let mut i = from;
    while i < v.len() && is_space_exec(v[i])
        invariant
            from <= i <= v@.len(),
            trim_start(v@.skip(from as int)) == trim_start(v@.skip(i as int)),
        decreases v@.len() - i,
    {
        proof {
            assert(v@.skip(i as int).drop_first() =~= v@.skip(i + 1));
            assert(v@.skip(i as int)[0] == v@[i as int]);
        }
        i = i + 1;
    }
    proof {
        if i < v@.len() {
            assert(v@.skip(i as int)[0] == v@[i as int]);
        }
    }
    i
}

/// The number up to `max` that `s` denotes, if any.
fn parse_bounded(s: &Vec<char>, max: u64) -> (r: Option<u64>)
    ensures
        r == bounded_value(s@, max),
{
    let start: usize = if s.len() > 0 && s[0] == '+' { 1 } else { 0 };
    let ghost d = if s@.len() > 0 && s@[0] == '+' { s@.drop_first() } else { s@ };
    proof {
        assert(d =~= s@.skip(start as int));
    }
    if start >= s.len() {
        return None;
    }
    let mut value: u128 = 0;
    let mut i = start;
    while i < s.len()
        invariant
            start <= i <= s@.len(),
            d == s@.skip(start as int),
            d == (if s@.len() > 0 && s@[0] == '+' { s@.drop_first() } else { s@ }),
            d.len() > 0,
            value == digits_value(d.take(i - start)),
            value <= max,
            all_digits(d.take(i - start)),
        decreases s@.len() - i,
    {
        let c = s[i];
        proof {
            assert(d.take(i - start + 1).drop_last() =~= d.take(i - start));
            assert(d.take(i - start + 1).last() == c);
        }
        if c < '0' || c > '9' {
            proof {
                assert(d[i - start] == c);
                assert(!all_digits(d));
                assert(bounded_value(s@, max) is None);
            }
            return None;
        }
        let digit = (c as u32 - '0' as u32) as u128;
        let next = value * 10 + digit;
        proof {
            assert(digits_value(d.take(i - start + 1)) == next);
        }
        if next > max as u128 {
            proof {
                if all_digits(d) {
                    lemma_digits_grow(d, (i - start + 1) as nat);
                }
                assert(bounded_value(s@, max) is None);
            }
            return None;
        }
        value = next;
        proof {
            assert(all_digits(d.take(i - start + 1))) by {
                assert forall|k: int| 0 <= k < i - start + 1 implies '0' <= #[trigger] d.take(i - start + 1)[k] <= '9' by {
                    if k < i - start {
                        assert(d.take(i - start + 1)[k] == d.take(i - start)[k]);
                    }
                }
            }
        }
        i = i + 1;
    }
    proof {
        assert(d.take(i - start) =~= d);
    }
    Some(value as u64)
}

/// The `u32` that `s` denotes, if any.
fn parse_u32(s: &Vec<char>) -> (r: Option<u32>)
    ensures
        r == u32_value(s@),
{
    match parse_bounded(s, 4294967295u64) {
        Some(v) => Some(v as u32),
        None => None,
    }
}

/// A prefix of digits is worth no more than the whole.
proof fn lemma_digits_grow(d: Seq<char>, n: nat)
    requires
        n <= d.len(),
        all_digits(d),
    ensures
        0 <= digits_value(d.take(n as int)) <= digits_value(d),
    decreases d.len(),
{
    if n < d.len() {
        assert(d.drop_last().take(n as int) =~= d.take(n as int));
        assert(all_digits(d.drop_last())) by {
            assert forall|k: int| 0 <= k < d.drop_last().len() implies '0' <= #[trigger] d.drop_last()[k] <= '9' by {
                assert(d.drop_last()[k] == d[k]);
            }
        }
        lemma_digits_grow(d.drop_last(), n);
        assert('0' <= d[d.len() - 1] <= '9');
    } else {
        assert(d.take(n as int) =~= d);
        lemma_digits_nonneg(d);
    }
}

proof fn lemma_digits_nonneg(d: Seq<char>)
    requires
        all_digits(d),
    ensures
        digits_value(d) >= 0,
    decreases d.len(),
{
    if d.len() > 0 {
        assert(all_digits(d.drop_last())) by {
            assert forall|k: int| 0 <= k < d.drop_last().len() implies '0' <= #[trigger] d.drop_last()[k] <= '9' by {
                assert(d.drop_last()[k] == d[k]);
            }
        }
        lemma_digits_nonneg(d.drop_last());
        assert('0' <= d[d.len() - 1] <= '9');
    }
}

/// Whether the compiler whose version line is `line` (such as
/// `rustc 1.96.0 (abc 2026-01-01)`) writes raw profiles this crate reads.
pub fn raw_profiles_supported(line: &str) -> (r: bool)
    ensures
        r == raw_profiles_readable(line@),
{
    let v = chars_of(line);
    let a = skip_space(&v, 0);
    let b = word_at(&v, a);
    let c = skip_space(&v, b);
    let d = word_at(&v, c);
    proof {
        assert(v@.skip(0) =~= v@);
        let t1 = trim_start(v@);
        assert(t1 == v@.skip(a as int));
        assert(t1.skip(word_len(t1) as int) =~= v@.skip(b as int));
        let t2 = trim_start(t1.skip(word_len(t1) as int));
        assert(t2 == v@.skip(c as int));
    }
    if a == v.len() || c == v.len() {
        return false;
    }
    let word = slice_chars(&v, c, d);
    proof {
        let t2 = v@.skip(c as int);
        assert(word@ =~= t2.take(word_len(t2) as int));
    }
    let dot = chars_of(".");
    match split_once_exec(&word, &dot) {
        None => false,
        Some((major, rest)) => {
            let minor = match split_once_exec(&rest, &dot) {
                Some((m, _)) => m,
                None => rest,
            };
            match (parse_u32(&major), parse_u32(&minor)) {
                (Some(x), Some(y)) => x >= 1 && y >= 96,
                _ => false,
            }
        },
    }
}

// ---------------------------------------------------------------------------
// addr2line output
// ---------------------------------------------------------------------------

/// The position of the last `c` in `s`.
pub open spec fn last_index(s: Seq<char>, c: char) -> Option<nat>
    decreases s.len(),
{
    if s.len() == 0 {
        None
    } else if s.last() == c {
        Some((s.len() - 1) as nat)
    } else {
        last_index(s.drop_last(), c)
    }
}

/// `s` split around its last `c` (std's `rsplit_once`).
pub open spec fn rsplit_once(s: Seq<char>, c: char) -> Option<(Seq<char>, Seq<char>)> {
    match last_index(s, c) {
        Some(i) => Some((s.take(i as int), s.skip(i as int + 1))),
        None => None,
    }
}

/// The source position a location line `file:line` names, unless it is
/// unknown (`??:0`, or any `?`) or its line is no number.
pub open spec fn location_entry(loc: Seq<char>) -> Seq<(Seq<char>, u64)> {
    if loc == "??:0"@ || contains_seq(loc, "?"@) {
        Seq::empty()
    } else {
        match rsplit_once(loc, ':') {
            Some((file, n)) => match bounded_value(n, u64::MAX) {
                Some(v) => seq![(file, v)],
                None => Seq::empty(),
            },
            None => Seq::empty(),
        }
    }
}

/// The source positions of `addr2line -f -a` output: its lines come in
/// threes (address, function, location); a short last group has the
/// unknown location.
pub open spec fn addr2line_locations(ls: Seq<Seq<char>>) -> Seq<(Seq<char>, u64)>
    decreases ls.len(),
{
    if ls.len() == 0 {
        Seq::empty()
    } else if ls.len() >= 3 {
        location_entry(ls[2]) + addr2line_locations(ls.skip(3))
    } else {
        location_entry("??:0"@)
    }
}

/// The texts and numbers of a list of positions.
pub open spec fn positions_view(v: Seq<(String, u64)>) -> Seq<(Seq<char>, u64)> {
    v.map_values(|p: (String, u64)| (p.0@, p.1))
}

/// The position of the last `c` in `v`.
fn last_index_exec(v: &Vec<char>, c: char) -> (r: Option<usize>)
    ensures
        match r {
            Some(i) => last_index(v@, c) == Some(i as nat) && i < v@.len(),
            None => last_index(v@, c) is None,
        },
{
    let mut i = v.len();
    proof {
        assert(v@.take(i as int) =~= v@);
    }
    while i > 0
        invariant
            i <= v@.len(),
            last_index(v@, c) == last_index(v@.take(i as int), c),
        decreases i,
    {
        proof {
            assert(v@.take(i as int).drop_last() =~= v@.take(i - 1));
            assert(v@.take(i as int).last() == v@[i - 1]);
        }
        if v[i - 1] == c {
            return Some(i - 1);
        }
        i = i - 1;
    }
    None
}

/// The source position a location line names, if any.
fn location_entry_exec(loc: &Vec<char>) -> (r: Option<(String, u64)>)
    ensures
        match r {
            Some(p) => location_entry(loc@) == seq![(p.0@, p.1)],
            None => location_entry(loc@).len() == 0,
        },
{
    if chars_eq(loc, &chars_of("??:0")) || contains_exec(loc, &chars_of("?")) {
        return None;
    }
    let len = loc.len();
    match last_index_exec(loc, ':') {
        None => None,
        Some(i) => {
            let file = slice_chars(loc, 0, i);
            let n = slice_chars(loc, i + 1, len);
            proof {
                assert(file@ =~= loc@.take(i as int));
                assert(n@ =~= loc@.skip(i as int + 1));
            }
            proof {
                assert(loc@ != "??:0"@);
                assert(!contains_seq(loc@, "?"@));
                assert(rsplit_once(loc@, ':') == Some((file@, n@)));
            }
            match parse_bounded(&n, 18446744073709551615u64) {
                Some(v) => {
                    let f = string_from_chars(&file);
                    proof {
                        assert(bounded_value(n@, u64::MAX) == Some(v));
                        assert(location_entry(loc@) =~= seq![(f@, v)]);
                    }
                    Some((f, v))
                },
                None => None,
            }
        },
    }
}

/// The source positions named by `addr2line -f -a` output, in order.
pub fn parse_addr2line(out: &str) -> (r: Vec<(String, u64)>)
    ensures
        positions_view(r@) == addr2line_locations(lines(out@)),
{
    let ls = split_lines(&chars_of(out));
    let ghost lv = views(ls@);
    let mut r: Vec<(String, u64)> = Vec::new();
    let mut i: usize = 0;
    proof {
        assert(lv.skip(0) =~= lv);
        assert(positions_view(r@) + addr2line_locations(lv.skip(0)) =~= addr2line_locations(lv));
    }
    while i < ls.len()
        invariant
            i <= ls@.len(),
            lv == views(ls@),
            lv == lines(out@),
            addr2line_locations(lv) == positions_view(r@) + addr2line_locations(lv.skip(i as int)),
        decreases ls@.len() - i,
    {
        let ghost before = positions_view(r@);
        let ghost rest = lv.skip(i as int);
        if ls.len() - i >= 3 {
            let e = location_entry_exec(&ls[i + 2]);
            proof {
                assert(rest[2] == ls@[i + 2]@);
                assert(rest.skip(3) =~= lv.skip(i + 3));
            }
            match e {
                Some(p) => {
                    r.push(p);
                    proof {
                        assert(positions_view(r@) =~= before + location_entry(rest[2]));
                    }
                },
                None => {
                    proof {
                        assert(location_entry(rest[2]) =~= Seq::<(Seq<char>, u64)>::empty());
                        assert(positions_view(r@) =~= before + location_entry(rest[2]));
                    }
                },
            }
            proof {
                assert(addr2line_locations(rest) == location_entry(rest[2]) + addr2line_locations(lv.skip(i + 3)));
                assert(addr2line_locations(lv) =~= positions_view(r@) + addr2line_locations(lv.skip(i + 3)));
            }
            i = i + 3;
        } else {
            proof {
                assert(location_entry("??:0"@) =~= Seq::<(Seq<char>, u64)>::empty());
                assert(lv.skip(ls@.len() as int) =~= Seq::<Seq<char>>::empty());
                assert(addr2line_locations(lv) =~= positions_view(r@) + addr2line_locations(lv.skip(ls@.len() as int)));
            }
            i = ls.len();
        }
    }
    proof {
        assert(lv.skip(i as int) =~= Seq::<Seq<char>>::empty());
        assert(positions_view(r@) + Seq::<(Seq<char>, u64)>::empty() =~= positions_view(r@));
    }
    r
}

} // verus!
