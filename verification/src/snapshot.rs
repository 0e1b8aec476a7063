//! Snapshot testing: the decisions behind a file-based assertion.
//!
//! A snapshot is the rendered text of a value, stored in a file named after
//! the snapshot. The caller looks the file up, hands over what it holds,
//! and performs the write the verdict asks for.

use vstd::prelude::*;
use crate::model::text::{chars_of, dec, lines, push_chars, push_dec, push_str, split_lines, string_from_chars, views};

verus! {

// ---------------------------------------------------------------------------
// File names
// ---------------------------------------------------------------------------

/// Whether `c` is alphabetic or numeric in Unicode's sense, as std's
/// `char::is_alphanumeric` decides.
pub uninterp spec fn alphanumeric(c: char) -> bool;

/// `char::is_alphanumeric`. Its result is named `alphanumeric`: the
/// Unicode tables behind it are not restated here.
#[verifier::external_body]
fn is_alphanumeric(c: char) -> (r: bool)
    ensures
        r == alphanumeric(c),
{
    c.is_alphanumeric()
}

/// The character a snapshot name keeps at a position: letters, digits, `_`
/// and `-` stay, anything else becomes `_`.
pub open spec fn safe_char(c: char) -> char {
    if alphanumeric(c) || c == '_' || c == '-' { c } else { '_' }
}

/// A snapshot name made safe for a file name.
pub open spec fn safe_name(name: Seq<char>) -> Seq<char> {
    name.map_values(|c: char| safe_char(c))
}

/// The file that stores snapshot `name`.
pub open spec fn snapshot_file(name: Seq<char>) -> Seq<char> {
    safe_name(name) + ".snap"@
}

/// The name of the file that stores snapshot `name`.
pub fn snapshot_file_name(name: &str) -> (r: String)
    ensures
        r@ == snapshot_file(name@),
{
    let v = chars_of(name);
    let mut out: Vec<char> = Vec::new();
    let mut i: usize = 0;
    while i < v.len()
        invariant
            i <= v@.len(),
            v@ == name@,
            out@ == safe_name(v@.take(i as int)),
        decreases v@.len() - i,
    {
        let c = v[i];
        let keep = is_alphanumeric(c) || c == '_' || c == '-';
        out.push(if keep { c } else { '_' });
        proof {
            assert(out@ =~= safe_name(v@.take(i + 1)));
        }
        i = i + 1;
    }
    proof {
        assert(v@.take(i as int) =~= v@);
    }
    push_str(&mut out, ".snap");
    string_from_chars(&out)
}

/// The snapshot directory when none was set: `.snapshots` if it exists,
/// else `tests/.snapshots` if that exists, else `.snapshots`.
pub fn default_snapshot_dir(dot_snapshots_exists: bool, tests_snapshots_exists: bool) -> (r: String)
    ensures
        r@ == (if !dot_snapshots_exists && tests_snapshots_exists { "tests/.snapshots"@ } else { ".snapshots"@ }),
{
    let mut out: Vec<char> = Vec::new();
    if !dot_snapshots_exists && tests_snapshots_exists {
        push_str(&mut out, "tests/.snapshots");
    } else {
        push_str(&mut out, ".snapshots");
    }
    string_from_chars(&out)
}

// ---------------------------------------------------------------------------
// The line diff
// ---------------------------------------------------------------------------

/// Line `i` of `ls`, or the empty line past its end.
pub open spec fn line_at(ls: Seq<Seq<char>>, i: int) -> Seq<char> {
    if 0 <= i < ls.len() { ls[i] } else { Seq::empty() }
}

/// The two lines that differ, each after the path.
pub open spec fn diff_entry(path: Seq<char>, old_line: Seq<char>, new_line: Seq<char>) -> Seq<char> {
    "  "@ + path + " | "@ + old_line + "\n  "@ + path + " | "@ + new_line + "\n"@
}

/// The entries for the positions below `upto` where the lines differ.
pub open spec fn diff_entries(o: Seq<Seq<char>>, n: Seq<Seq<char>>, path: Seq<char>, upto: nat) -> Seq<char>
    decreases upto,
{
    if upto == 0 {
        Seq::empty()
    } else {
        let i = upto - 1;
        diff_entries(o, n, path, i as nat) + (if line_at(o, i) != line_at(n, i) {
            diff_entry(path, line_at(o, i), line_at(n, i))
        } else {
            Seq::empty()
        })
    }
}

/// The diff of a stored snapshot `old` and a new rendering `new`: an entry
/// per differing line; when no line differs, the line counts.
pub open spec fn diff_text(old: Seq<char>, new: Seq<char>, path: Seq<char>) -> Seq<char> {
    let o = lines(old);
    let n = lines(new);
    let max = if o.len() >= n.len() { o.len() } else { n.len() };
    let body = diff_entries(o, n, path, max);
    if body.len() == 0 {
        "  "@ + path + ": snapshot has "@ + dec(o.len()) + " lines, actual has "@ + dec(n.len()) + " lines\n"@
    } else {
        body
    }
}

/// The line diff of `old` against `new`, naming the snapshot file `path`.
pub fn simple_diff(old: &str, new: &str, path: &str) -> (r: String)
    ensures
        r@ == diff_text(old@, new@, path@),
{
    let o = split_lines(&chars_of(old));
    let n = split_lines(&chars_of(new));
    let ghost ov = views(o@);
    let ghost nv = views(n@);
    let p = chars_of(path);
    let max = if o.len() >= n.len() { o.len() } else { n.len() };
    let empty: Vec<char> = Vec::new();
    let mut out: Vec<char> = Vec::new();
    let mut i: usize = 0;
    while i < max
        invariant
            i <= max,
            ov == views(o@),
            nv == views(n@),
            ov == lines(old@),
            nv == lines(new@),
            p@ == path@,
            empty@.len() == 0,
            max == (if ov.len() >= nv.len() { ov.len() } else { nv.len() }),
            out@ == diff_entries(ov, nv, p@, i as nat),
        decreases max - i,
    {
        let a = if i < o.len() { &o[i] } else { &empty };
        let b = if i < n.len() { &n[i] } else { &empty };
        proof {
            assert(a@ =~= line_at(ov, i as int));
            assert(b@ =~= line_at(nv, i as int));
        }
        if !crate::model::text::chars_eq(a, b) {
            push_str(&mut out, "  ");
            push_chars(&mut out, &p);
            push_str(&mut out, " | ");
            push_chars(&mut out, a);
            push_str(&mut out, "\n  ");
            push_chars(&mut out, &p);
            push_str(&mut out, " | ");
            push_chars(&mut out, b);
            push_str(&mut out, "\n");
        }
        proof {
            assert(out@ =~= diff_entries(ov, nv, p@, (i + 1) as nat));
        }
        i = i + 1;
    }
    if out.len() == 0 {
        push_str(&mut out, "  ");
        push_chars(&mut out, &p);
        push_str(&mut out, ": snapshot has ");
        push_dec(&mut out, o.len() as u128);
        push_str(&mut out, " lines, actual has ");
        push_dec(&mut out, n.len() as u128);
        push_str(&mut out, " lines\n");
    }
    proof {
        assert(out@ =~= diff_text(old@, new@, path@));
    }
    string_from_chars(&out)
}

// ---------------------------------------------------------------------------
// The verdict
// ---------------------------------------------------------------------------

/// What an assertion of a snapshot comes to: whether the rendering is to be
/// written to the snapshot file, and the assertion's result.
pub struct SnapshotVerdict {
    pub write: bool,
    pub result: Result<(), String>,
}

/// The message of a snapshot stored for the first time.
pub open spec fn created_message(name: Seq<char>, path_debug: Seq<char>) -> Seq<char> {
    "snapshot `"@ + name + "` created at "@ + path_debug
        + ".\nReview the content and commit the snapshot file.\nUse `--update-all` to auto-accept new snapshots."@
}

/// The message of a rendering that differs from its snapshot.
pub open spec fn mismatch_message(name: Seq<char>, diff: Seq<char>) -> Seq<char> {
    "snapshot `"@ + name + "` mismatch!\nexpected (snapshot)\nactual (new)\n"@ + diff
        + "\nRerun with `--update-all` to accept the new snapshot."@
}

/// The verdict on `rendered` given the stored snapshot (if any): a missing
/// snapshot is written and, unless every snapshot is being updated, fails
/// the assertion; a matching one passes; a differing one is overwritten in
/// update mode and otherwise fails with a diff. `path_debug` and
/// `path_display` are the snapshot file's path as `{:?}` and `{}` show it.
pub fn judge_snapshot(
    name: &str,
    rendered: &str,
    existing: Option<String>,
    update_all: bool,
    path_debug: &str,
    path_display: &str,
) -> (r: SnapshotVerdict)
    ensures
        match existing {
            None => r.write && match r.result {
                Ok(()) => update_all,
                Err(m) => !update_all && m@ == created_message(name@, path_debug@),
            },
            Some(e) => if e@ == rendered@ {
                !r.write && r.result is Ok
            } else if update_all {
                r.write && r.result is Ok
            } else {
                !r.write && match r.result {
                    Ok(()) => false,
                    Err(m) => m@ == mismatch_message(name@, diff_text(e@, rendered@, path_display@)),
                }
            },
        },
        r.result is Ok <==> (update_all || (existing matches Some(e) && e@ == rendered@)),
{
    match existing {
        None => {
            if update_all {
                SnapshotVerdict { write: true, result: Ok(()) }
            } else {
                let mut m: Vec<char> = Vec::new();
                push_str(&mut m, "snapshot `");
                push_str(&mut m, name);
                push_str(&mut m, "` created at ");
                push_str(&mut m, path_debug);
                push_str(
                    &mut m,
                    ".\nReview the content and commit the snapshot file.\nUse `--update-all` to auto-accept new snapshots.",
                );
                proof {
                    assert(m@ =~= created_message(name@, path_debug@));
                }
                SnapshotVerdict { write: true, result: Err(string_from_chars(&m)) }
            }
        },
        Some(e) => {
            if e == String::from_str(rendered) {
                SnapshotVerdict { write: false, result: Ok(()) }
            } else if update_all {
                SnapshotVerdict { write: true, result: Ok(()) }
            } else {
                let diff = simple_diff(e.as_str(), rendered, path_display);
                let mut m: Vec<char> = Vec::new();
                push_str(&mut m, "snapshot `");
                push_str(&mut m, name);
                push_str(&mut m, "` mismatch!\nexpected (snapshot)\nactual (new)\n");
                push_chars(&mut m, &chars_of(diff.as_str()));
                push_str(&mut m, "\nRerun with `--update-all` to accept the new snapshot.");
                proof {
                    assert(m@ =~= mismatch_message(name@, diff_text(e@, rendered@, path_display@)));
                }
                SnapshotVerdict { write: false, result: Err(string_from_chars(&m)) }
            }
        },
    }
}

} // verus!
