//! The module dependency graph of a crate, read from its source files, and
//! the search for dependency cycles in it.

use vstd::prelude::*;
use crate::model::text::{
    chars_eq, chars_of, ends_with, ends_with_exec, lines, push_str, slice_chars, split_lines, split_once,
    split_once_exec, starts_with, starts_with_exec, string_from_chars, trim, trim_end_char, trim_end_char_exec,
    trim_exec, views, string_views,
};

verus! {

// ---------------------------------------------------------------------------
// Names without repetition
// ---------------------------------------------------------------------------

/// `d` with `x` appended unless it already holds it.
pub open spec fn add_new(d: Seq<Seq<char>>, x: Seq<char>) -> Seq<Seq<char>> {
    if d.contains(x) { d } else { d.push(x) }
}

/// The distinct elements of `s`, in order of first appearance.
pub open spec fn dedup(s: Seq<Seq<char>>) -> Seq<Seq<char>>
    decreases s.len(),
{
    if s.len() == 0 {
        Seq::empty()
    } else {
        add_new(dedup(s.drop_last()), s.last())
    }
}

/// `d` extended with the elements of `t` it does not hold yet, in order.
pub open spec fn add_all_new(d: Seq<Seq<char>>, t: Seq<Seq<char>>) -> Seq<Seq<char>>
    decreases t.len(),
{
    if t.len() == 0 {
        d
    } else {
        add_new(add_all_new(d, t.drop_last()), t.last())
    }
}

/// No element of `s` occurs twice.
pub open spec fn distinct(s: Seq<Seq<char>>) -> bool {
    forall|i: int, j: int| 0 <= i < j < s.len() ==> s[i] != s[j]
}

/// Deduplicating a concatenation extends the deduplicated prefix.
pub proof fn lemma_dedup_append(s: Seq<Seq<char>>, t: Seq<Seq<char>>)
    ensures
        dedup(s + t) == add_all_new(dedup(s), t),
    decreases t.len(),
{
    if t.len() == 0 {
        assert(s + t =~= s);
    } else {
        assert((s + t).drop_last() =~= s + t.drop_last());
        assert((s + t).last() == t.last());
        lemma_dedup_append(s, t.drop_last());
    }
}

/// The deduplicated sequence holds the same elements, each once.
pub proof fn lemma_dedup(s: Seq<Seq<char>>)
    ensures
        distinct(dedup(s)),
        forall|x: Seq<char>| dedup(s).contains(x) <==> s.contains(x),
    decreases s.len(),
{
    if s.len() > 0 {
        lemma_dedup(s.drop_last());
        let d = dedup(s.drop_last());
        assert forall|x: Seq<char>| dedup(s).contains(x) <==> s.contains(x) by {
            if s.contains(x) {
                let k = choose|k: int| 0 <= k < s.len() && s[k] == x;
                if k < s.len() - 1 {
                    assert(s.drop_last()[k] == x);
                    assert(s.drop_last().contains(x));
                    assert(d.contains(x));
                    let m = choose|m: int| 0 <= m < d.len() && d[m] == x;
                    assert(dedup(s)[m] == x);
                } else {
                    if d.contains(x) {
                        let m = choose|m: int| 0 <= m < d.len() && d[m] == x;
                        assert(dedup(s)[m] == x);
                    } else {
                        assert(dedup(s)[d.len() as int] == x);
                    }
                }
            }
            if dedup(s).contains(x) {
                let m = choose|m: int| 0 <= m < dedup(s).len() && dedup(s)[m] == x;
                if m < d.len() {
                    assert(d[m] == x);
                    assert(s.drop_last().contains(x));
                    let k = choose|k: int| 0 <= k < s.drop_last().len() && s.drop_last()[k] == x;
                    assert(s[k] == x);
                } else {
                    assert(s[s.len() - 1] == x);
                }
            }
        }
    }
}

// ---------------------------------------------------------------------------
// Reading a source file
// ---------------------------------------------------------------------------

/// What precedes the first `sep` in `s` (all of `s` if it holds none).
pub open spec fn before(s: Seq<char>, sep: Seq<char>) -> Seq<char> {
    match split_once(s, sep) {
        Some((a, _)) => a,
        None => s,
    }
}

/// The modules one line of source names: the top-level module of a
/// `use crate::` path, and the module a `mod` item declares. Comment,
/// attribute and blank lines name none.
pub open spec fn line_deps(line: Seq<char>) -> Seq<Seq<char>> {
    let t = trim(line);
    if starts_with(t, "//"@) || starts_with(t, "#"@) || t.len() == 0 {
        Seq::empty()
    } else {
        let used = if starts_with(t, "use crate::"@) {
            let top = before(trim_end_char(t.skip("use crate::"@.len() as int), ';'), "::"@);
            if top.len() > 0 { seq![top] } else { Seq::empty() }
        } else {
            Seq::empty()
        };
        let declared = if starts_with(t, "pub mod "@) {
            seq![trim(before(t.skip("pub mod "@.len() as int), ";"@))]
        } else if starts_with(t, "mod "@) {
            seq![trim(before(t.skip("mod "@.len() as int), ";"@))]
        } else {
            Seq::empty()
        };
        used + declared
    }
}

/// The names of all lines, in order, repetitions kept.
pub open spec fn lines_deps(ls: Seq<Seq<char>>) -> Seq<Seq<char>>
    decreases ls.len(),
{
    if ls.len() == 0 {
        Seq::empty()
    } else {
        lines_deps(ls.drop_last()) + line_deps(ls.last())
    }
}

/// The modules a source file depends on, each once, in order of first mention.
pub open spec fn content_deps(content: Seq<char>) -> Seq<Seq<char>> {
    dedup(lines_deps(lines(content)))
}

/// `s` with each `/` written `::`.
pub open spec fn slashes_to_colons(s: Seq<char>) -> Seq<char>
    decreases s.len(),
{
    if s.len() == 0 {
        Seq::empty()
    } else {
        slashes_to_colons(s.drop_last()) + (if s.last() == '/' { "::"@ } else { seq![s.last()] })
    }
}

/// The module a file (its path relative to the source directory) defines:
/// the path without `.rs`, with `::` between directories; a `mod.rs` names
/// its directory, and the top-level one `crate_root`.
pub open spec fn module_name(rel: Seq<char>) -> Seq<char> {
    let stem = if ends_with(rel, ".rs"@) { rel.take(rel.len() - ".rs"@.len()) } else { rel };
    if stem == "mod"@ {
        "crate_root"@
    } else if ends_with(stem, "/mod"@) {
        let parent = stem.take(stem.len() - "/mod"@.len());
        if parent.len() == 0 { "crate_root"@ } else { slashes_to_colons(parent) }
    } else {
        slashes_to_colons(stem)
    }
}

// ---------------------------------------------------------------------------
// Executable readers
// ---------------------------------------------------------------------------

fn word(s: &str) -> (v: Vec<char>)
    ensures
        v@ == s@,
{
    chars_of(s)
}

/// Appends `x` to `out` unless `out` holds it.
fn push_new(out: &mut Vec<Vec<char>>, x: Vec<char>)
    ensures
        views(final(out)@) == add_new(views(old(out)@), x@),
{
    let ghost before_v = views(out@);
    let mut i: usize = 0;
    while i < out.len()
        invariant
            i <= out.len(),
            views(out@) == before_v,
            forall|k: int| 0 <= k < i ==> out@[k]@ != x@,
        decreases out.len() - i,
    {
        if chars_eq(&out[i], &x) {
            proof {
                assert(before_v[i as int] == x@);
            }
            return;
        }
        i = i + 1;
    }
    proof {
        assert(!before_v.contains(x@)) by {
            if before_v.contains(x@) {
                let k = choose|k: int| 0 <= k < before_v.len() && before_v[k] == x@;
                assert(out@[k]@ == x@);
            }
        }
    }
    out.push(x);
    proof {
        assert(views(out@) =~= before_v.push(x@));
    }
}

/// Appends the elements of `items` that `out` does not hold yet.
fn push_all_new(out: &mut Vec<Vec<char>>, items: Vec<Vec<char>>)
    ensures
        views(final(out)@) == add_all_new(views(old(out)@), views(items@)),
{
    let ghost start = views(out@);
    let ghost iv = views(items@);
    let mut rest = items;
    let ghost mut n: int = 0;
    while rest.len() > 0
        invariant
            0 <= n <= iv.len(),
            views(rest@) == iv.skip(n),
            views(out@) == add_all_new(start, iv.take(n)),
        decreases rest.len(),
    {
        let ghost rv = views(rest@);
        let ghost old_rest = rest@;
        proof {
            assert(rv.len() == old_rest.len());
            assert(n < iv.len());
        }
        let x = rest.remove(0);
        proof {
            assert(x@ == rv[0]);
            assert(rest@ =~= old_rest.subrange(1, old_rest.len() as int));
            assert forall|k: int| 0 <= k < views(rest@).len() implies views(rest@)[k] == iv.skip(n + 1)[k] by {
                assert(rest@[k] == old_rest[k + 1]);
                assert(rv[k + 1] == iv.skip(n)[k + 1]);
            }
            assert(views(rest@) =~= iv.skip(n + 1));
            assert(iv.take(n + 1).drop_last() =~= iv.take(n));
            assert(iv.take(n + 1).last() == iv[n]);
        }
        push_new(out, x);
        proof {
            n = n + 1;
        }
    }
    proof {
        assert(iv.take(n) =~= iv);
    }
}

/// What precedes the first `sep` in `s`.
fn before_exec(s: &Vec<char>, sep: &Vec<char>) -> (r: Vec<char>)
    ensures
        r@ == before(s@, sep@),
{
    match split_once_exec(s, sep) {
        Some((a, _)) => a,
        None => slice_chars(s, 0, s.len()),
    }
}

/// The modules one line names.
fn line_deps_exec(line: &Vec<char>) -> (r: Vec<Vec<char>>)
    ensures
        views(r@) == line_deps(line@),
{
    let t = trim_exec(line);
    let mut r: Vec<Vec<char>> = Vec::new();
    if starts_with_exec(&t, &word("//")) || starts_with_exec(&t, &word("#")) || t.len() == 0 {
        proof {
            assert(views(r@) =~= Seq::<Seq<char>>::empty());
        }
        return r;
    }
    let use_prefix = word("use crate::");
    if starts_with_exec(&t, &use_prefix) {
        let rest = slice_chars(&t, use_prefix.len(), t.len());
        let path = trim_end_char_exec(&rest, ';');
        let top = before_exec(&path, &word("::"));
        if top.len() > 0 {
            r.push(top);
        }
    }
    let pub_mod = word("pub mod ");
    let plain_mod = word("mod ");
    if starts_with_exec(&t, &pub_mod) {
        let rest = slice_chars(&t, pub_mod.len(), t.len());
        let name = trim_exec(&before_exec(&rest, &word(";")));
        r.push(name);
    } else if starts_with_exec(&t, &plain_mod) {
        let rest = slice_chars(&t, plain_mod.len(), t.len());
        let name = trim_exec(&before_exec(&rest, &word(";")));
        r.push(name);
    }
    proof {
        assert(views(r@) =~= line_deps(line@));
    }
    r
}

/// The modules a source text depends on, each once.
fn content_deps_exec(content: &str) -> (r: Vec<Vec<char>>)
    ensures
        views(r@) == content_deps(content@),
{
    let all = chars_of(content);
    let ls = split_lines(&all);
    let ghost lv = views(ls@);
    let mut out: Vec<Vec<char>> = Vec::new();
    let mut i: usize = 0;
    while i < ls.len()
        invariant
            i <= ls.len(),
            lv == views(ls@),
            lv == lines(content@),
            views(out@) == dedup(lines_deps(lv.take(i as int))),
        decreases ls.len() - i,
    {
        let ld = line_deps_exec(&ls[i]);
        proof {
            assert(lv.take(i + 1).drop_last() =~= lv.take(i as int));
            assert(lv.take(i + 1).last() == ls@[i as int]@);
            lemma_dedup_append(lines_deps(lv.take(i as int)), views(ld@));
        }
        push_all_new(&mut out, ld);
        i = i + 1;
    }
    proof {
        assert(lv.take(i as int) =~= lv);
    }
    out
}

/// Strings holding the given character sequences.
fn strings_of(v: &Vec<Vec<char>>) -> (r: Vec<String>)
    ensures
        r@.len() == v@.len(),
        forall|k: int| 0 <= k < v@.len() ==> #[trigger] r@[k]@ == v@[k]@,
{
    let mut r: Vec<String> = Vec::new();
    let mut i: usize = 0;
    while i < v.len()
        invariant
            i <= v.len(),
            r@.len() == i,
            forall|k: int| 0 <= k < i ==> #[trigger] r@[k]@ == v@[k]@,
        decreases v.len() - i,
    {
        r.push(string_from_chars(&v[i]));
        i = i + 1;
    }
    r
}

/// The modules a source text depends on, each once, in order of first
/// mention: the top-level module of each `use crate::` path and each module
/// a `mod` item declares.
pub fn parse_deps(content: &str) -> (r: Vec<String>)
    ensures
        r@.len() == content_deps(content@).len(),
        forall|k: int| 0 <= k < r@.len() ==> #[trigger] r@[k]@ == content_deps(content@)[k],
{
    let d = content_deps_exec(content);
    strings_of(&d)
}

/// `s` with each `/` written `::`.
fn slashes_to_colons_exec(s: &Vec<char>) -> (r: Vec<char>)
    ensures
        r@ == slashes_to_colons(s@),
{
    let mut out: Vec<char> = Vec::new();
    let mut i: usize = 0;
    while i < s.len()
        invariant
            i <= s.len(),
            out@ == slashes_to_colons(s@.take(i as int)),
        decreases s.len() - i,
    {
        proof {
            assert(s@.take(i + 1).drop_last() =~= s@.take(i as int));
            assert(s@.take(i + 1).last() == s@[i as int]);
        }
        if s[i] == '/' {
            push_str(&mut out, "::");
        } else {
            out.push(s[i]);
        }
        proof {
            assert(out@ =~= slashes_to_colons(s@.take(i + 1)));
        }
        i = i + 1;
    }
    proof {
        assert(s@.take(i as int) =~= s@);
    }
    out
}

/// The module defined by the file at path `p`.
fn module_name_exec(p: &Vec<char>) -> (r: Vec<char>)
    ensures
        r@ == module_name(p@),
{
    let ext = word(".rs");
    let stem = if ends_with_exec(p, &ext) { slice_chars(p, 0, p.len() - ext.len()) } else { slice_chars(p, 0, p.len()) };
    proof {
        assert(stem@ =~= (if ends_with(p@, ".rs"@) { p@.take(p@.len() - ".rs"@.len()) } else { p@ }));
    }
    let suffix = word("/mod");
    let out = if chars_eq(&stem, &word("mod")) {
        word("crate_root")
    } else if ends_with_exec(&stem, &suffix) {
        let parent = slice_chars(&stem, 0, stem.len() - suffix.len());
        if parent.len() == 0 { word("crate_root") } else { slashes_to_colons_exec(&parent) }
    } else {
        slashes_to_colons_exec(&stem)
    };
    proof {
        assert(out@ =~= module_name(p@));
    }
    out
}

/// The module defined by the file at `rel` (relative to the source
/// directory, `/`-separated).
pub fn path_to_module(rel: &str) -> (r: String)
    ensures
        r@ == module_name(rel@),
{
    let p = chars_of(rel);
    string_from_chars(&module_name_exec(&p))
}

// ---------------------------------------------------------------------------
// The graph of a set of source files
// ---------------------------------------------------------------------------

/// A source file of the crate under check: its path relative to the source
/// directory (`/`-separated) and its text.
pub struct SourceFile {
    pub path: String,
    pub content: String,
}

/// The module of each file, in file order, repetitions kept.
pub open spec fn module_list(fs: Seq<SourceFile>) -> Seq<Seq<char>>
    decreases fs.len(),
{
    if fs.len() == 0 {
        Seq::empty()
    } else {
        module_list(fs.drop_last()).push(module_name(fs.last().path@))
    }
}

/// The modules the files define, each once, in order of first definition.
pub open spec fn defined_modules(fs: Seq<SourceFile>) -> Seq<Seq<char>> {
    dedup(module_list(fs))
}

/// The names mentioned by the files that define module `m`, in file order,
/// repetitions kept.
pub open spec fn mentioned(fs: Seq<SourceFile>, m: Seq<char>) -> Seq<Seq<char>>
    decreases fs.len(),
{
    if fs.len() == 0 {
        Seq::empty()
    } else {
        mentioned(fs.drop_last(), m) + (if module_name(fs.last().path@) == m {
            content_deps(fs.last().content@)
        } else {
            Seq::empty()
        })
    }
}

/// The modules module `m` depends on, each once, in order of first mention.
pub open spec fn module_deps(fs: Seq<SourceFile>, m: Seq<char>) -> Seq<Seq<char>> {
    dedup(mentioned(fs, m))
}

/// Module `a` depends on `b`.
pub open spec fn depends(fs: Seq<SourceFile>, a: Seq<char>, b: Seq<char>) -> bool {
    module_deps(fs, a).contains(b)
}

/// `c` is a dependency cycle: each module depends on the next, the last on
/// the first.
pub open spec fn is_cycle(fs: Seq<SourceFile>, c: Seq<Seq<char>>) -> bool {
    &&& c.len() > 0
    &&& forall|i: int| 0 <= i < c.len() - 1 ==> #[trigger] depends(fs, c[i], c[i + 1])
    &&& depends(fs, c.last(), c[0])
}

/// No dependency cycle exists.
pub open spec fn acyclic(fs: Seq<SourceFile>) -> bool {
    forall|c: Seq<Seq<char>>| !#[trigger] is_cycle(fs, c)
}

/// A module no file defines depends on nothing.
pub proof fn lemma_undefined_has_no_deps(fs: Seq<SourceFile>, m: Seq<char>)
    requires
        !defined_modules(fs).contains(m),
    ensures
        module_deps(fs, m) == Seq::<Seq<char>>::empty(),
{
    lemma_dedup(module_list(fs));
    lemma_mentioned_undefined(fs, m);
}

proof fn lemma_mentioned_undefined(fs: Seq<SourceFile>, m: Seq<char>)
    requires
        !module_list(fs).contains(m),
    ensures
        mentioned(fs, m) == Seq::<Seq<char>>::empty(),
    decreases fs.len(),
{
    if fs.len() > 0 {
        let l = module_list(fs.drop_last());
        assert(module_list(fs) == l.push(module_name(fs.last().path@)));
        assert(module_list(fs)[l.len() as int] == module_name(fs.last().path@));
        assert(!l.contains(m)) by {
            if l.contains(m) {
                let k = choose|k: int| 0 <= k < l.len() && l[k] == m;
                assert(module_list(fs)[k] == m);
            }
        }
        lemma_mentioned_undefined(fs.drop_last(), m);
        assert(mentioned(fs, m) =~= Seq::<Seq<char>>::empty());
    }
}

/// The dependency graph: the modules defined and, for each, the modules it
/// depends on.
pub struct DependencyGraph {
    modules: Vec<Vec<char>>,
    deps: Vec<Vec<Vec<char>>>,
}

/// `g` is the graph of the files `fs`.
pub closed spec fn graph_of(g: DependencyGraph, fs: Seq<SourceFile>) -> bool {
    &&& views(g.modules@) == defined_modules(fs)
    &&& g.deps@.len() == g.modules@.len()
    &&& forall|i: int| 0 <= i < g.deps@.len() ==> views(#[trigger] g.deps@[i]@) == module_deps(fs, defined_modules(fs)[i])
}

/// A copy of a list of names.
fn copy_names(v: &Vec<Vec<char>>) -> (r: Vec<Vec<char>>)
    ensures
        views(r@) == views(v@),
{
    let mut r: Vec<Vec<char>> = Vec::new();
    let mut i: usize = 0;
    while i < v.len()
        invariant
            i <= v.len(),
            views(r@) == views(v@).take(i as int),
        decreases v.len() - i,
    {
        let c = slice_chars(&v[i], 0, v[i].len());
        let ghost before = views(r@);
        r.push(c);
        proof {
            assert(c@ =~= v@[i as int]@);
            assert(views(r@) =~= before.push(c@));
            assert(views(v@).take(i + 1) =~= views(v@).take(i as int).push(v@[i as int]@));
        }
        i = i + 1;
    }
    proof {
        assert(views(v@).take(i as int) =~= views(v@));
    }
    r
}

/// The position of `x` in `names`, if it is there.
fn index_of(names: &Vec<Vec<char>>, x: &Vec<char>) -> (r: Option<usize>)
    ensures
        match r {
            Some(i) => i < names@.len() && names@[i as int]@ == x@,
            None => !views(names@).contains(x@),
        },
{
    let mut i: usize = 0;
    while i < names.len()
        invariant
            i <= names.len(),
            forall|k: int| 0 <= k < i ==> names@[k]@ != x@,
        decreases names.len() - i,
    {
        if chars_eq(&names[i], x) {
            return Some(i);
        }
        i = i + 1;
    }
    proof {
        if views(names@).contains(x@) {
            let k = choose|k: int| 0 <= k < views(names@).len() && views(names@)[k] == x@;
            assert(names@[k]@ == x@);
        }
    }
    None
}

impl DependencyGraph {
    /// The graph of the given source files.
    pub fn from_files(files: &Vec<SourceFile>) -> (g: DependencyGraph)
        ensures
            graph_of(g, files@),
    {
        let ghost fs = files@;
        let mut mods: Vec<Vec<char>> = Vec::new();
        let mut fdeps: Vec<Vec<Vec<char>>> = Vec::new();
        let mut i: usize = 0;
        while i < files.len()
            invariant
                i <= files.len(),
                fs == files@,
                views(mods@) == module_list(fs.take(i as int)),
                fdeps@.len() == i,
                forall|j: int| 0 <= j < i ==> views(#[trigger] fdeps@[j]@) == content_deps(fs[j].content@),
            decreases files.len() - i,
        {
            let p = chars_of(files[i].path.as_str());
            let m = module_name_exec(&p);
            mods.push(m);
            fdeps.push(content_deps_exec(files[i].content.as_str()));
            proof {
                assert(fs.take(i + 1).drop_last() =~= fs.take(i as int));
                assert(fs.take(i + 1).last() == fs[i as int]);
                assert(views(mods@) =~= module_list(fs.take(i + 1)));
            }
            i = i + 1;
        }
        proof {
            assert(fs.take(i as int) =~= fs);
        }
        let mut modules: Vec<Vec<char>> = Vec::new();
        let mut j: usize = 0;
        while j < mods.len()
            invariant
                j <= mods.len(),
                views(mods@) == module_list(fs),
                views(modules@) == dedup(views(mods@).take(j as int)),
            decreases mods.len() - j,
        {
            let c = slice_chars(&mods[j], 0, mods[j].len());
            proof {
                assert(c@ =~= mods@[j as int]@);
                assert(views(mods@).take(j + 1).drop_last() =~= views(mods@).take(j as int));
                assert(views(mods@).take(j + 1).last() == mods@[j as int]@);
            }
            push_new(&mut modules, c);
            j = j + 1;
        }
        proof {
            assert(views(mods@).take(j as int) =~= views(mods@));
        }
        let mut deps: Vec<Vec<Vec<char>>> = Vec::new();
        let mut k: usize = 0;
        proof {
            lemma_module_list_len(fs);
        }
        while k < modules.len()
            invariant
                k <= modules.len(),
                fs == files@,
                views(modules@) == defined_modules(fs),
                views(mods@) == module_list(fs),
                mods@.len() == fs.len(),
                fdeps@.len() == fs.len(),
                forall|j: int| 0 <= j < fs.len() ==> views(#[trigger] fdeps@[j]@) == content_deps(fs[j].content@),
                deps@.len() == k,
                forall|t: int| 0 <= t < k ==> views(#[trigger] deps@[t]@) == module_deps(fs, defined_modules(fs)[t]),
            decreases modules.len() - k,
        {
            let ghost m = modules@[k as int]@;
            let mut d: Vec<Vec<char>> = Vec::new();
            let mut j: usize = 0;
            while j < mods.len()
                invariant
                    j <= mods.len(),
                    k < modules.len(),
                    m == modules@[k as int]@,
                    fs == files@,
                    views(mods@) == module_list(fs),
                    mods@.len() == fs.len(),
                    fdeps@.len() == fs.len(),
                    forall|j: int| 0 <= j < fs.len() ==> views(#[trigger] fdeps@[j]@) == content_deps(fs[j].content@),
                    views(d@) == dedup(mentioned(fs.take(j as int), m)),
                decreases mods.len() - j,
            {
                proof {
                    lemma_module_list_index(fs, j as int);
                    assert(fs.take(j + 1).drop_last() =~= fs.take(j as int));
                    assert(fs.take(j + 1).last() == fs[j as int]);
                }
                if chars_eq(&mods[j], &modules[k]) {
                    let more = copy_names(&fdeps[j]);
                    proof {
                        lemma_dedup_append(mentioned(fs.take(j as int), m), content_deps(fs[j as int].content@));
                    }
                    push_all_new(&mut d, more);
                } else {
                    proof {
                        assert(mentioned(fs.take(j + 1), m) =~= mentioned(fs.take(j as int), m));
                    }
                }
                j = j + 1;
            }
            proof {
                assert(fs.take(j as int) =~= fs);
            }
            deps.push(d);
            k = k + 1;
        }
        DependencyGraph { modules, deps }
    }

    /// The modules `module` depends on (none when no file defines it).
    pub fn dependencies_of(&self, module: &str, Ghost(fs): Ghost<Seq<SourceFile>>) -> (r: Vec<String>)
        requires
            graph_of(*self, fs),
        ensures
            r@.len() == module_deps(fs, module@).len(),
            forall|k: int| 0 <= k < r@.len() ==> #[trigger] r@[k]@ == module_deps(fs, module@)[k],
    {
        let m = chars_of(module);
        match index_of(&self.modules, &m) {
            Some(i) => strings_of(&self.deps[i]),
            None => {
                proof {
                    lemma_undefined_has_no_deps(fs, module@);
                }
                Vec::new()
            },
        }
    }
}

proof fn lemma_module_list_index(fs: Seq<SourceFile>, j: int)
    requires
        0 <= j < fs.len(),
    ensures
        module_list(fs).len() == fs.len(),
        module_list(fs)[j] == module_name(fs[j].path@),
    decreases fs.len(),
{
    if j < fs.len() - 1 {
        lemma_module_list_index(fs.drop_last(), j);
    } else {
        lemma_module_list_len(fs.drop_last());
    }
    lemma_module_list_len(fs);
}

proof fn lemma_module_list_len(fs: Seq<SourceFile>)
    ensures
        module_list(fs).len() == fs.len(),
    decreases fs.len(),
{
    if fs.len() > 0 {
        lemma_module_list_len(fs.drop_last());
    }
}

// ---------------------------------------------------------------------------
// Cycle search over numbered nodes
// ---------------------------------------------------------------------------

/// The successor lists of a graph over the nodes `0..n`.
pub open spec fn adj_view(adj: Seq<Vec<usize>>) -> Seq<Seq<usize>> {
    adj.map_values(|v: Vec<usize>| v@)
}

/// Every successor is a node.
pub open spec fn adj_wf(a: Seq<Seq<usize>>) -> bool {
    forall|x: int, k: int| 0 <= x < a.len() && 0 <= k < a[x].len() ==> #[trigger] a[x][k] < a.len()
}

/// An edge from node `x` to node `y`.
pub open spec fn iedge(a: Seq<Seq<usize>>, x: usize, y: usize) -> bool {
    x < a.len() && a[x as int].contains(y)
}

/// `c` is a cycle of numbered nodes.
pub open spec fn icycle(a: Seq<Seq<usize>>, c: Seq<usize>) -> bool {
    &&& c.len() > 0
    &&& forall|i: int| 0 <= i < c.len() - 1 ==> #[trigger] iedge(a, c[i], c[i + 1])
    &&& iedge(a, c.last(), c[0])
}

/// No node occurs twice in `c`.
pub open spec fn nodup(c: Seq<usize>) -> bool {
    forall|i: int, j: int| 0 <= i < j < c.len() ==> c[i] != c[j]
}

/// Node `x` has been left for good: visited and no longer on the path.
pub open spec fn fin(vis: Seq<bool>, ins: Seq<bool>, x: usize) -> bool {
    vis[x as int] && !ins[x as int]
}

/// The successors of a finished node are finished.
pub open spec fn closed(a: Seq<Seq<usize>>, vis: Seq<bool>, ins: Seq<bool>) -> bool {
    forall|x: usize, y: usize| fin(vis, ins, x) && #[trigger] iedge(a, x, y) ==> fin(vis, ins, y)
}

/// No cycle lies among the finished nodes.
pub open spec fn no_cycle_within(a: Seq<Seq<usize>>, vis: Seq<bool>, ins: Seq<bool>) -> bool {
    forall|c: Seq<usize>| #[trigger] icycle(a, c) ==> exists|i: int| 0 <= i < c.len() && !fin(vis, ins, c[i])
}

/// The number of `false` entries.
pub open spec fn count_false(s: Seq<bool>) -> nat
    decreases s.len(),
{
    if s.len() == 0 {
        0
    } else {
        count_false(s.drop_last()) + (if s.last() { 0nat } else { 1nat })
    }
}

proof fn lemma_count_false(s1: Seq<bool>, s2: Seq<bool>, u: int)
    requires
        s1.len() == s2.len(),
        forall|i: int| 0 <= i < s1.len() && s1[i] ==> s2[i],
    ensures
        count_false(s2) <= count_false(s1),
        0 <= u < s1.len() && !s1[u] && s2[u] ==> count_false(s2) < count_false(s1),
    decreases s1.len(),
{
    if s1.len() > 0 {
        lemma_count_false(s1.drop_last(), s2.drop_last(), u);
    }
}

proof fn lemma_chain(a: Seq<Seq<usize>>, vis: Seq<bool>, ins: Seq<bool>, c: Seq<usize>, from: int)
    requires
        closed(a, vis, ins),
        icycle(a, c),
        0 <= from < c.len(),
        fin(vis, ins, c[from]),
    ensures
        forall|i: int| from <= i < c.len() ==> fin(vis, ins, c[i]),
    decreases c.len() - from,
{
    if from + 1 < c.len() {
        assert(iedge(a, c[from], c[from + 1]));
        lemma_chain(a, vis, ins, c, from + 1);
    }
}

/// Leaving node `u`, all of whose successors are finished, keeps the
/// finished nodes closed and free of cycles.
proof fn lemma_finish(a: Seq<Seq<usize>>, vis: Seq<bool>, ins: Seq<bool>, u: usize)
    requires
        adj_wf(a),
        vis.len() == a.len(),
        ins.len() == a.len(),
        u < a.len(),
        vis[u as int],
        ins[u as int],
        closed(a, vis, ins),
        no_cycle_within(a, vis, ins),
        forall|y: usize| #[trigger] iedge(a, u, y) ==> fin(vis, ins, y),
    ensures
        closed(a, vis, ins.update(u as int, false)),
        no_cycle_within(a, vis, ins.update(u as int, false)),
{
    let ins2 = ins.update(u as int, false);
    assert forall|x: usize, y: usize| fin(vis, ins2, x) && #[trigger] iedge(a, x, y) implies fin(vis, ins2, y) by {
        lemma_edge_target(a, x, y);
        if x == u {
            assert(fin(vis, ins, y));
        } else {
            assert(fin(vis, ins, x));
            assert(fin(vis, ins, y));
        }
    }
    assert forall|c: Seq<usize>| #[trigger] icycle(a, c) implies exists|i: int| 0 <= i < c.len() && !fin(vis, ins2, c[i]) by {
        lemma_cycle_nodes(a, c);
        if forall|i: int| 0 <= i < c.len() ==> fin(vis, ins2, c[i]) {
            if exists|k: int| 0 <= k < c.len() && c[k] == u {
                let k = choose|k: int| 0 <= k < c.len() && c[k] == u;
                let m = c.len() - 1;
                if k < m {
                    assert(iedge(a, c[k], c[k + 1]));
                    assert(fin(vis, ins, c[k + 1]));
                    lemma_chain(a, vis, ins, c, k + 1);
                    assert(fin(vis, ins, c[m]));
                    assert(iedge(a, c[m], c[0]));
                    assert(fin(vis, ins, c[0]));
                } else {
                    assert(iedge(a, c[m], c[0]));
                    assert(fin(vis, ins, c[0]));
                }
                lemma_chain(a, vis, ins, c, 0);
                assert(fin(vis, ins, c[k]));
                assert(false);
            } else {
                let i = choose|i: int| 0 <= i < c.len() && !fin(vis, ins, c[i]);
                assert(fin(vis, ins2, c[i]));
                assert(false);
            }
        }
    }
}

/// A cycle among nodes that all stay finished stays ruled out.
proof fn lemma_same_finished(a: Seq<Seq<usize>>, vis1: Seq<bool>, ins1: Seq<bool>, vis2: Seq<bool>, ins2: Seq<bool>)
    requires
        adj_wf(a),
        forall|x: usize| x < a.len() ==> fin(vis1, ins1, x) == fin(vis2, ins2, x),
        closed(a, vis1, ins1),
        no_cycle_within(a, vis1, ins1),
    ensures
        closed(a, vis2, ins2),
        no_cycle_within(a, vis2, ins2),
{
    assert forall|x: usize, y: usize| fin(vis2, ins2, x) && #[trigger] iedge(a, x, y) implies fin(vis2, ins2, y) by {
        lemma_edge_target(a, x, y);
        assert(fin(vis1, ins1, x));
        assert(fin(vis1, ins1, y));
    }
    assert forall|c: Seq<usize>| #[trigger] icycle(a, c) implies exists|i: int| 0 <= i < c.len() && !fin(vis2, ins2, c[i]) by {
        let i = choose|i: int| 0 <= i < c.len() && !fin(vis1, ins1, c[i]);
        lemma_cycle_nodes(a, c);
        assert(!fin(vis2, ins2, c[i]));
    }
}

proof fn lemma_edge_target(a: Seq<Seq<usize>>, x: usize, y: usize)
    requires
        iedge(a, x, y),
    ensures
        exists|k: int| 0 <= k < a[x as int].len() && a[x as int][k] == y,
{
}

/// The nodes of a cycle are nodes of the graph.
proof fn lemma_cycle_nodes(a: Seq<Seq<usize>>, c: Seq<usize>)
    requires
        icycle(a, c),
    ensures
        forall|i: int| 0 <= i < c.len() ==> c[i] < a.len(),
{
    assert forall|i: int| 0 <= i < c.len() implies c[i] < a.len() by {
        if i < c.len() - 1 {
            assert(iedge(a, c[i], c[i + 1]));
        } else {
            assert(iedge(a, c.last(), c[0]));
        }
    }
}

/// The state of the depth-first search: the nodes visited, the nodes on
/// the current path (as flags and in order), and the cycles found.
struct Search {
    visited: Vec<bool>,
    in_stack: Vec<bool>,
    stack: Vec<usize>,
    cycles: Vec<Vec<usize>>,
}

impl Search {
    spec fn inv(&self, a: Seq<Seq<usize>>) -> bool {
        &&& self.visited@.len() == a.len()
        &&& self.in_stack@.len() == a.len()
        &&& forall|k: int| 0 <= k < self.stack@.len() ==> #[trigger] self.stack@[k] < a.len()
        &&& forall|x: usize| x < a.len() ==> (#[trigger] self.in_stack@[x as int] <==> self.stack@.contains(x))
        &&& forall|x: usize| x < a.len() && #[trigger] self.in_stack@[x as int] ==> self.visited@[x as int]
        &&& forall|k: int| 0 <= k < self.stack@.len() - 1 ==> #[trigger] iedge(a, self.stack@[k], self.stack@[k + 1])
        &&& forall|k: int| 0 <= k < self.cycles@.len() ==> #[trigger] icycle(a, self.cycles@[k]@)
        &&& nodup(self.stack@)
        &&& forall|k: int| 0 <= k < self.cycles@.len() ==> nodup(#[trigger] self.cycles@[k]@)
        &&& self.cycles@.len() == 0 ==> closed(a, self.visited@, self.in_stack@) && no_cycle_within(
            a,
            self.visited@,
            self.in_stack@,
        )
    }

    /// The cycle closed by an edge from the top of the path back to `v`,
    /// which is on the path: the path from `v` on.
    fn cycle_to(&self, v: usize, Ghost(a): Ghost<Seq<Seq<usize>>>) -> (r: Vec<usize>)
        requires
            self.inv(a),
            v < a.len(),
            self.in_stack@[v as int],
            iedge(a, self.stack@.last(), v),
        ensures
            icycle(a, r@),
            nodup(r@),
    {
        let mut pos: usize = 0;
        while pos < self.stack.len() && self.stack[pos] != v
            invariant
                pos <= self.stack@.len(),
                self.stack@.contains(v),
                forall|k: int| 0 <= k < pos ==> self.stack@[k] != v,
            decreases self.stack@.len() - pos,
        {
            pos = pos + 1;
        }
        proof {
            if pos == self.stack@.len() {
                let k = choose|k: int| 0 <= k < self.stack@.len() && self.stack@[k] == v;
                assert(false);
            }
        }
        let mut r: Vec<usize> = Vec::new();
        let mut i = pos;
        while i < self.stack.len()
            invariant
                pos <= i <= self.stack@.len(),
                r@ == self.stack@.subrange(pos as int, i as int),
            decreases self.stack@.len() - i,
        {
            r.push(self.stack[i]);
            proof {
                assert(r@ =~= self.stack@.subrange(pos as int, i + 1));
            }
            i = i + 1;
        }
        proof {
            let st = self.stack@;
            assert(r@ == st.subrange(pos as int, st.len() as int));
            assert forall|j: int| 0 <= j < r@.len() - 1 implies #[trigger] iedge(a, r@[j], r@[j + 1]) by {
                assert(r@[j] == st[pos + j]);
                assert(r@[j + 1] == st[pos + j + 1]);
                assert(iedge(a, st[pos + j], st[pos + j + 1]));
            }
            assert(r@.last() == st.last());
            assert(r@[0] == v);
            assert forall|i: int, j: int| 0 <= i < j < r@.len() implies r@[i] != r@[j] by {
                assert(r@[i] == st[pos + i]);
                assert(r@[j] == st[pos + j]);
            }
        }
        r
    }

    /// Depth-first search from `u`, recording each cycle closed by an edge
    /// back to a node on the current path.
    fn dfs(&mut self, adj: &Vec<Vec<usize>>, u: usize, Ghost(a): Ghost<Seq<Seq<usize>>>)
        requires
            a == adj_view(adj@),
            adj_wf(a),
            u < a.len(),
            old(self).inv(a),
            !old(self).in_stack@[u as int],
            old(self).stack@.len() > 0 ==> iedge(a, old(self).stack@.last(), u),
        ensures
            final(self).inv(a),
            final(self).stack@ == old(self).stack@,
            final(self).in_stack@ == old(self).in_stack@,
            final(self).visited@.len() == old(self).visited@.len(),
            forall|x: int| 0 <= x < a.len() && old(self).visited@[x] ==> final(self).visited@[x],
            final(self).visited@[u as int],
            final(self).cycles@.len() >= old(self).cycles@.len(),
        decreases count_false(old(self).visited@),
    {
        if self.visited[u] {
            return;
        }
        let ghost vis0 = self.visited@;
        let ghost ins0 = self.in_stack@;
        let ghost stack0 = self.stack@;
        self.visited.set(u, true);
        self.in_stack.set(u, true);
        self.stack.push(u);
        proof {
            if self.cycles@.len() == 0 {
                lemma_same_finished(a, vis0, ins0, self.visited@, self.in_stack@);
            }
            assert forall|x: usize| x < a.len() implies (#[trigger] self.in_stack@[x as int] <==> self.stack@.contains(x)) by {
                if x == u {
                    assert(self.stack@[self.stack@.len() - 1] == u);
                } else {
                    if stack0.contains(x) {
                        let k = choose|k: int| 0 <= k < stack0.len() && stack0[k] == x;
                        assert(self.stack@[k] == x);
                    }
                    if self.stack@.contains(x) {
                        let k = choose|k: int| 0 <= k < self.stack@.len() && self.stack@[k] == x;
                        assert(stack0[k] == x);
                    }
                }
            }
            assert forall|k: int| 0 <= k < self.stack@.len() - 1 implies #[trigger] iedge(a, self.stack@[k], self.stack@[k + 1]) by {
                if k < stack0.len() - 1 {
                    assert(iedge(a, stack0[k], stack0[k + 1]));
                }
            }
            assert(!stack0.contains(u));
            assert forall|i: int, j: int| 0 <= i < j < self.stack@.len() implies self.stack@[i] != self.stack@[j] by {
                if j == stack0.len() {
                    assert(stack0[i] == self.stack@[i]);
                } else {
                    assert(stack0[i] != stack0[j]);
                }
            }
        }
        let n = adj[u].len();
        let mut j: usize = 0;
        while j < n
            invariant
                a == adj_view(adj@),
                adj_wf(a),
                u < a.len(),
                n == a[u as int].len(),
                j <= n,
                self.inv(a),
                self.stack@ == stack0.push(u),
                self.in_stack@ == ins0.update(u as int, true),
                self.visited@.len() == a.len(),
                forall|x: int| 0 <= x < a.len() && vis0[x] ==> self.visited@[x],
                self.visited@[u as int],
                !vis0[u as int],
                vis0.len() == a.len(),
                ins0.len() == a.len(),
                vis0 == old(self).visited@,
                self.cycles@.len() >= old(self).cycles@.len(),
                self.cycles@.len() == 0 ==> forall|k: int| 0 <= k < j ==> fin(self.visited@, self.in_stack@, #[trigger] a[u as int][k]),
            decreases n - j,
        {
            let v = adj[u][j];
            proof {
                assert(a[u as int][j as int] == v);
                assert(v < a.len());
                assert(iedge(a, u, v));
            }
            if self.in_stack[v] {
                let c = self.cycle_to(v, Ghost(a));
                self.cycles.push(c);
                proof {
                    assert forall|k: int| 0 <= k < self.cycles@.len() implies #[trigger] icycle(a, self.cycles@[k]@) by {
                        if k < self.cycles@.len() - 1 {
                        }
                    }
                    assert forall|k: int| 0 <= k < self.cycles@.len() implies nodup(#[trigger] self.cycles@[k]@) by {
                        if k < self.cycles@.len() - 1 {
                        }
                    }
                }
            } else {
                let ghost vis1 = self.visited@;
                let ghost cyc1 = self.cycles@.len();
                proof {
                    lemma_count_false(vis0, vis1, u as int);
                }
                self.dfs(adj, v, Ghost(a));
                proof {
                    if self.cycles@.len() == 0 {
                        assert(cyc1 == 0);
                        assert forall|k: int| 0 <= k < j + 1 implies fin(self.visited@, self.in_stack@, #[trigger] a[u as int][k]) by {
                            if k < j {
                                let w = a[u as int][k];
                                assert(w < a.len());
                                assert(fin(vis1, self.in_stack@, w));
                            }
                        }
                    }
                }
            }
            j = j + 1;
        }
        let ghost vis2 = self.visited@;
        let ghost ins2 = self.in_stack@;
        proof {
            if self.cycles@.len() == 0 {
                assert forall|y: usize| #[trigger] iedge(a, u, y) implies fin(vis2, ins2, y) by {
                    let k = choose|k: int| 0 <= k < a[u as int].len() && a[u as int][k] == y;
                }
                lemma_finish(a, vis2, ins2, u);
            }
        }
        self.stack.pop();
        self.in_stack.set(u, false);
        proof {
            assert(self.stack@ =~= stack0);
            assert(self.in_stack@ =~= ins0);
            assert(self.in_stack@ =~= ins2.update(u as int, false));
        }
    }
}

/// The cycles of a numbered graph that a depth-first search from every node
/// finds: each is a cycle, and none are found only when there is none.
fn search_cycles(adj: &Vec<Vec<usize>>) -> (r: Vec<Vec<usize>>)
    requires
        adj_wf(adj_view(adj@)),
    ensures
        forall|k: int| 0 <= k < r@.len() ==> #[trigger] icycle(adj_view(adj@), r@[k]@),
        forall|k: int| 0 <= k < r@.len() ==> nodup(#[trigger] r@[k]@),
        r@.len() == 0 ==> forall|c: Seq<usize>| !#[trigger] icycle(adj_view(adj@), c),
{
    let ghost a = adj_view(adj@);
    let n = adj.len();
    let mut visited: Vec<bool> = Vec::new();
    let mut in_stack: Vec<bool> = Vec::new();
    let mut i: usize = 0;
    while i < n
        invariant
            n == adj@.len(),
            i <= n,
            visited@.len() == i,
            in_stack@.len() == i,
            forall|x: int| 0 <= x < i ==> !visited@[x] && !in_stack@[x],
        decreases n - i,
    {
        visited.push(false);
        in_stack.push(false);
        i = i + 1;
    }
    let mut s = Search { visited, in_stack, stack: Vec::new(), cycles: Vec::new() };
    proof {
        assert forall|c: Seq<usize>| #[trigger] icycle(a, c) implies exists|i: int| 0 <= i < c.len() && !fin(s.visited@, s.in_stack@, c[i]) by {
            lemma_cycle_nodes(a, c);
            assert(!fin(s.visited@, s.in_stack@, c[0]));
        }
    }
    let mut i: usize = 0;
    while i < n
        invariant
            a == adj_view(adj@),
            adj_wf(a),
            n == a.len(),
            i <= n,
            s.inv(a),
            s.stack@.len() == 0,
            forall|x: int| 0 <= x < i ==> s.visited@[x],
        decreases n - i,
    {
        proof {
            if s.in_stack@[i as int] {
                assert(s.stack@.contains(i));
            }
        }
        s.dfs(adj, i, Ghost(a));
        i = i + 1;
    }
    proof {
        if s.cycles@.len() == 0 {
            assert forall|c: Seq<usize>| !#[trigger] icycle(a, c) by {
                if icycle(a, c) {
                    lemma_cycle_nodes(a, c);
                    let k = choose|k: int| 0 <= k < c.len() && !fin(s.visited@, s.in_stack@, c[k]);
                    let x = c[k];
                    assert(s.visited@[x as int]);
                    if s.in_stack@[x as int] {
                        assert(s.stack@.contains(x));
                    }
                }
            }
        }
    }
    s.cycles
}

// ---------------------------------------------------------------------------
// Cycles of the module graph
// ---------------------------------------------------------------------------


/// The facts `add_new` keeps.
proof fn lemma_add_new(d: Seq<Seq<char>>, x: Seq<char>)
    ensures
        add_new(d, x).contains(x),
        add_new(d, x).len() >= d.len(),
        forall|t: int| 0 <= t < d.len() ==> add_new(d, x)[t] == d[t],
        forall|y: Seq<char>| d.contains(y) ==> add_new(d, x).contains(y),
        distinct(d) ==> distinct(add_new(d, x)),
{
    if !d.contains(x) {
        assert(d.push(x)[d.len() as int] == x);
        assert forall|y: Seq<char>| d.contains(y) implies add_new(d, x).contains(y) by {
            let k = choose|k: int| 0 <= k < d.len() && d[k] == y;
            assert(d.push(x)[k] == y);
        }
        if distinct(d) {
            assert forall|i: int, j: int| 0 <= i < j < d.push(x).len() implies d.push(x)[i] != d.push(x)[j] by {
                if j == d.len() {
                    assert(d[i] == d.push(x)[i]);
                }
            }
        }
    }
}

/// A named cycle of the numbered graph is a dependency cycle.
proof fn lemma_named_cycle(fs: Seq<SourceFile>, names: Seq<Seq<char>>, a: Seq<Seq<usize>>, ic: Seq<usize>)
    requires
        names.len() == a.len(),
        forall|x: int, y: int|
            0 <= x < names.len() && 0 <= y < names.len() ==> (iedge(a, x as usize, y as usize) <==> depends(
                fs,
                names[x],
                names[y],
            )),
        icycle(a, ic),
    ensures
        is_cycle(fs, ic.map_values(|t: usize| names[t as int])),
{
    lemma_cycle_nodes(a, ic);
    let c = ic.map_values(|t: usize| names[t as int]);
    assert forall|i: int| 0 <= i < c.len() - 1 implies #[trigger] depends(fs, c[i], c[i + 1]) by {
        assert(iedge(a, ic[i], ic[i + 1]));
    }
    assert(iedge(a, ic.last(), ic[0]));
}

/// A dependency cycle among the named nodes is a cycle of the numbered graph.
proof fn lemma_numbered_cycle(fs: Seq<SourceFile>, names: Seq<Seq<char>>, a: Seq<Seq<usize>>, c: Seq<Seq<char>>)
    requires
        names.len() == a.len(),
        a.len() <= usize::MAX,
        forall|x: int, y: int|
            0 <= x < names.len() && 0 <= y < names.len() ==> (iedge(a, x as usize, y as usize) <==> depends(
                fs,
                names[x],
                names[y],
            )),
        forall|p: Seq<char>, q: Seq<char>| #[trigger] depends(fs, p, q) ==> names.contains(q),
        is_cycle(fs, c),
    ensures
        exists|ic: Seq<usize>| icycle(a, ic),
{
    assert forall|i: int| 0 <= i < c.len() implies names.contains(#[trigger] c[i]) by {
        if i == 0 {
            assert(depends(fs, c.last(), c[0]));
        } else {
            assert(depends(fs, c[i - 1], c[(i - 1) + 1]));
        }
    }
    let ic = c.map_values(|q: Seq<char>| (choose|t: usize| t < names.len() && names[t as int] == q));
    assert forall|i: int| 0 <= i < c.len() implies ic[i] < names.len() && names[ic[i] as int] == c[i] by {
        assert(names.contains(c[i]));
        let k = choose|k: int| 0 <= k < names.len() && names[k] == c[i];
        assert(names[(k as usize) as int] == c[i]);
    }
    assert forall|i: int| 0 <= i < ic.len() - 1 implies #[trigger] iedge(a, ic[i], ic[i + 1]) by {
        assert(depends(fs, c[i], c[i + 1]));
        assert(ic[i] < names.len() && names[ic[i] as int] == c[i]);
        assert(ic[i + 1] < names.len() && names[ic[i + 1] as int] == c[i + 1]);
    }
    assert(ic.last() == ic[ic.len() - 1]);
    assert(ic[ic.len() - 1] < names.len() && names[ic[ic.len() - 1] as int] == c[c.len() - 1]);
    assert(ic[0] < names.len() && names[ic[0] as int] == c[0]);
    assert(iedge(a, ic.last(), ic[0]));
    assert(icycle(a, ic));
}

impl DependencyGraph {
    /// The dependency cycles a depth-first search finds: each is a cycle
    /// through distinct modules, and none are found only when the graph has
    /// none.
    pub fn find_cycles(&self, Ghost(fs): Ghost<Seq<SourceFile>>) -> (r: Vec<Vec<String>>)
        requires
            graph_of(*self, fs),
        ensures
            forall|k: int| 0 <= k < r@.len() ==> is_cycle(fs, #[trigger] string_views(r@[k]@)),
            forall|k: int| 0 <= k < r@.len() ==> distinct(#[trigger] string_views(r@[k]@)),
            r@.len() == 0 <==> acyclic(fs),
    {
        let mm = self.modules.len();
        let mut names = copy_names(&self.modules);
        proof {
            lemma_dedup(module_list(fs));
            assert forall|t: int| 0 <= t < mm implies #[trigger] names@[t]@ == self.modules@[t]@ by {
                assert(views(names@)[t] == views(self.modules@)[t]);
            }
        }
        let mut i: usize = 0;
        while i < mm
            invariant
                graph_of(*self, fs),
                mm == self.modules@.len(),
                i <= mm,
                names@.len() >= mm,
                forall|t: int| 0 <= t < mm ==> #[trigger] names@[t]@ == self.modules@[t]@,
                distinct(views(names@)),
                forall|t: int, k: int|
                    0 <= t < i && 0 <= k < self.deps@[t]@.len() ==> views(names@).contains(#[trigger] self.deps@[t]@[k]@),
            decreases mm - i,
        {
            let mut k: usize = 0;
            while k < self.deps[i].len()
                invariant
                    graph_of(*self, fs),
                    mm == self.modules@.len(),
                    i < mm,
                    k <= self.deps@[i as int]@.len(),
                    names@.len() >= mm,
                    forall|t: int| 0 <= t < mm ==> #[trigger] names@[t]@ == self.modules@[t]@,
                    distinct(views(names@)),
                    forall|t: int, kk: int|
                        0 <= t < i && 0 <= kk < self.deps@[t]@.len() ==> views(names@).contains(#[trigger] self.deps@[t]@[kk]@),
                    forall|kk: int| 0 <= kk < k ==> views(names@).contains(#[trigger] self.deps@[i as int]@[kk]@),
                decreases self.deps@[i as int]@.len() - k,
            {
                let c = slice_chars(&self.deps[i][k], 0, self.deps[i][k].len());
                let ghost before = views(names@);
                push_new(&mut names, c);
                proof {
                    lemma_add_new(before, c@);
                    assert(c@ =~= self.deps@[i as int]@[k as int]@);
                    assert forall|t: int| 0 <= t < mm implies #[trigger] names@[t]@ == self.modules@[t]@ by {
                        assert(views(names@)[t] == before[t]);
                    }
                }
                k = k + 1;
            }
            i = i + 1;
        }
        let n = names.len();
        let ghost nv = views(names@);
        let mut adj: Vec<Vec<usize>> = Vec::new();
        let mut x: usize = 0;
        while x < n
            invariant
                graph_of(*self, fs),
                mm == self.modules@.len(),
                n == names@.len(),
                nv == views(names@),
                distinct(nv),
                forall|t: int, kk: int|
                    0 <= t < mm && 0 <= kk < self.deps@[t]@.len() ==> nv.contains(#[trigger] self.deps@[t]@[kk]@),
                adj@.len() == x,
                x <= n,
                forall|y: int, k: int| 0 <= y < x && 0 <= k < adj@[y]@.len() ==> #[trigger] adj@[y]@[k] < n,
                forall|y: int, z: int|
                    0 <= y < x && 0 <= z < n ==> (#[trigger] adj@[y]@.contains(z as usize) <==> (y < mm
                        && views(self.deps@[y]@).contains(nv[z]))),
            decreases n - x,
        {
            let mut row: Vec<usize> = Vec::new();
            if x < mm {
                let mut k: usize = 0;
                while k < self.deps[x].len()
                    invariant
                        graph_of(*self, fs),
                        mm == self.modules@.len(),
                        x < mm,
                        n == names@.len(),
                        nv == views(names@),
                        forall|t: int, kk: int|
                            0 <= t < mm && 0 <= kk < self.deps@[t]@.len() ==> nv.contains(#[trigger] self.deps@[t]@[kk]@),
                        k <= self.deps@[x as int]@.len(),
                        row@.len() == k,
                        forall|t: int| 0 <= t < k ==> #[trigger] row@[t] < n && nv[row@[t] as int] == self.deps@[x as int]@[t]@,
                    decreases self.deps@[x as int]@.len() - k,
                {
                    match index_of(&names, &self.deps[x][k]) {
                        Some(t) => {
                            row.push(t);
                        },
                        None => {
                            proof {
                                assert(nv.contains(self.deps@[x as int]@[k as int]@));
                            }
                        },
                    }
                    k = k + 1;
                }
                proof {
                    let dv = views(self.deps@[x as int]@);
                    assert forall|z: int| 0 <= z < n implies (row@.contains(z as usize) <==> dv.contains(nv[z])) by {
                        if row@.contains(z as usize) {
                            let t = choose|t: int| 0 <= t < row@.len() && row@[t] == z as usize;
                            assert(dv[t] == nv[z]);
                        }
                        if dv.contains(nv[z]) {
                            let t = choose|t: int| 0 <= t < dv.len() && dv[t] == nv[z];
                            assert(nv[row@[t] as int] == nv[z]);
                            assert(row@[t] == z as usize);
                        }
                    }
                }
            }
            adj.push(row);
            proof {
                assert forall|y: int, z: int|
                    0 <= y < x + 1 && 0 <= z < n implies (#[trigger] adj@[y]@.contains(z as usize) <==> (y < mm
                    && views(self.deps@[y]@).contains(nv[z]))) by {
                    if y == x && x >= mm {
                        assert(adj@[y]@ =~= Seq::<usize>::empty());
                    }
                }
            }
            x = x + 1;
        }
        let ghost a = adj_view(adj@);
        proof {
            assert forall|y: int, k: int| 0 <= y < a.len() && 0 <= k < a[y].len() implies #[trigger] a[y][k] < a.len() by {
                assert(a[y] == adj@[y]@);
            }
            assert forall|y: int, z: int|
                0 <= y < nv.len() && 0 <= z < nv.len() implies (iedge(a, y as usize, z as usize) <==> depends(fs, nv[y], nv[z])) by {
                assert(a[y] == adj@[y]@);
                if y < mm {
                    assert(nv[y] == defined_modules(fs)[y]);
                } else {
                    assert(!defined_modules(fs).contains(nv[y])) by {
                        if defined_modules(fs).contains(nv[y]) {
                            let t = choose|t: int| 0 <= t < defined_modules(fs).len() && defined_modules(fs)[t] == nv[y];
                            assert(nv[t] == nv[y]);
                        }
                    }
                    lemma_undefined_has_no_deps(fs, nv[y]);
                }
            }
            assert forall|p: Seq<char>, q: Seq<char>| #[trigger] depends(fs, p, q) implies nv.contains(q) by {
                if !defined_modules(fs).contains(p) {
                    lemma_undefined_has_no_deps(fs, p);
                } else {
                    let t = choose|t: int| 0 <= t < defined_modules(fs).len() && defined_modules(fs)[t] == p;
                    let dv = views(self.deps@[t]@);
                    assert(dv == module_deps(fs, p));
                    let kk = choose|kk: int| 0 <= kk < dv.len() && dv[kk] == q;
                    assert(nv.contains(self.deps@[t]@[kk]@));
                }
            }
        }
        let found = search_cycles(&adj);
        let mut r: Vec<Vec<String>> = Vec::new();
        let mut c: usize = 0;
        while c < found.len()
            invariant
                a == adj_view(adj@),
                n == names@.len(),
                nv == views(names@),
                a.len() == n,
                c <= found@.len(),
                r@.len() == c,
                forall|k: int| 0 <= k < found@.len() ==> #[trigger] icycle(a, found@[k]@),
                forall|k: int| 0 <= k < found@.len() ==> nodup(#[trigger] found@[k]@),
                distinct(nv),
                forall|k: int| 0 <= k < c ==> #[trigger] string_views(r@[k]@) == found@[k]@.map_values(
                    |t: usize| nv[t as int],
                ),
            decreases found@.len() - c,
        {
            let cyc = &found[c];
            proof {
                assert(icycle(a, found@[c as int]@));
                lemma_cycle_nodes(a, cyc@);
            }
            let mut ns: Vec<String> = Vec::new();
            let mut t: usize = 0;
            while t < cyc.len()
                invariant
                    n == names@.len(),
                    nv == views(names@),
                    forall|i: int| 0 <= i < cyc@.len() ==> cyc@[i] < n,
                    t <= cyc@.len(),
                    ns@.len() == t,
                    forall|i: int| 0 <= i < t ==> #[trigger] ns@[i]@ == nv[cyc@[i] as int],
                decreases cyc@.len() - t,
            {
                ns.push(string_from_chars(&names[cyc[t]]));
                t = t + 1;
            }
            proof {
                assert(string_views(ns@) =~= cyc@.map_values(|t: usize| nv[t as int]));
            }
            let ghost r_before = r@;
            r.push(ns);
            proof {
                assert forall|k: int| 0 <= k < c + 1 implies #[trigger] string_views(r@[k]@) == found@[k]@.map_values(
                    |t: usize| nv[t as int],
                ) by {
                    if k < c {
                        assert(r@[k] == r_before[k]);
                    }
                }
            }
            c = c + 1;
        }
        proof {
            assert forall|k: int| 0 <= k < r@.len() implies is_cycle(fs, #[trigger] string_views(r@[k]@)) by {
                lemma_named_cycle(fs, nv, a, found@[k]@);
            }
            assert forall|k: int| 0 <= k < r@.len() implies distinct(#[trigger] string_views(r@[k]@)) by {
                let ic = found@[k]@;
                assert(icycle(a, ic));
                assert(nodup(ic));
                lemma_cycle_nodes(a, ic);
                let sv = string_views(r@[k]@);
                assert(sv == ic.map_values(|t: usize| nv[t as int]));
                assert forall|i: int, j: int| 0 <= i < j < sv.len() implies sv[i] != sv[j] by {
                    assert(sv[i] == nv[ic[i] as int]);
                    assert(sv[j] == nv[ic[j] as int]);
                    assert(ic[i] != ic[j]);
                }
            }
            if r@.len() == 0 {
                assert forall|cc: Seq<Seq<char>>| !#[trigger] is_cycle(fs, cc) by {
                    if is_cycle(fs, cc) {
                        lemma_numbered_cycle(fs, nv, a, cc);
                    }
                }
            } else {
                assert(is_cycle(fs, string_views(r@[0]@)));
            }
        }
        r
    }
}

} // verus!
