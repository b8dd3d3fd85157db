//! Git workflow rules: branch and path validation, reading `git status`
//! output, summaries, and the commit confirmation token.
use std::collections::hash_map::DefaultHasher;
use std::hash::{Hash, Hasher};
use vstd::prelude::*;
use crate::text::string_views;
use crate::number::{
    decimal, decimal_u64, hex_fixed, hex_fixed_u64, lemma_decimal_chars, lemma_decimal_parse,
    lemma_hex_chars, lemma_hex_parse, lemma_pow16_16, parse_uint, parse_uint_exec, IntErrorKind,
};
use crate::sorted::{ascending, insert_sorted};
use crate::text::{
    bullets, joined, chars_of, contains_chars, contains_seq, first_where, is_ascii_alnum,
    is_ascii_alnum_char, lemma_first_where, lines, lines_of, push_bullets, utf8_len, utf8_char_len, cut_at, lemma_utf8_step,
    lemma_utf8_mono, lemma_cut_unique, push_chars, push_str,
    slice_chars, split_char, split_chars, starts_with, starts_with_chars, string_of, trim, trim_chars,
    trim_start, lemma_find_char,
};

verus! {

#[derive(Clone)]
pub struct GitStatusSummary {
    pub branch: String,
    pub clean: bool,
    pub warn_on_main: bool,
    pub raw: String,
    pub summary: String,
}

#[derive(Clone)]
pub struct GitDiffSummary {
    pub staged: Vec<String>,
    pub unstaged: Vec<String>,
    pub untracked: Vec<String>,
    pub deleted: Vec<String>,
    pub renamed: Vec<String>,
    pub ignored: Vec<String>,
    pub stat: String,
    pub summary: String,
}

#[derive(Clone)]
pub struct GitCommandOutput {
    pub success: bool,
    pub summary: String,
    pub stdout: String,
    pub stderr: String,
}

#[derive(Clone)]
pub struct GitCommitVerifiedOutput {
    pub success: bool,
    pub dry_run: bool,
    pub verification_status: String,
    pub verification_summary: String,
    pub staged_files: Vec<String>,
    pub confirmation_token: Option<String>,
    pub commit_preview: GitDiffSummary,
    pub commit: GitCommandOutput,
}

// ---------------------------------------------------------------------------
// Branch names
// ---------------------------------------------------------------------------

pub open spec fn branch_char_ok(c: char) -> bool {
    is_ascii_alnum(c) || c == '/' || c == '-' || c == '_' || c == '.'
}

pub open spec fn invalid_branch_msg() -> Seq<char> {
    "Invalid branch name"@
}

pub open spec fn branch_chars_msg() -> Seq<char> {
    "Branch names may contain only ASCII letters, numbers, '/', '-', '_', and '.'"@
}

/// Why `branch` is refused, if it is.
pub open spec fn branch_name_error(branch: Seq<char>) -> Option<Seq<char>> {
    let t = trim(branch);
    if t.len() == 0 || t[0] == '-' || contains_seq(t, ".."@) {
        Some(invalid_branch_msg())
    } else if exists|i: int| 0 <= i < t.len() && !branch_char_ok(#[trigger] t[i]) {
        Some(branch_chars_msg())
    } else {
        None
    }
}

/// Checks a branch name before `git switch -c`.
pub fn validate_branch_name(branch: &str) -> (r: Result<(), String>)
    ensures
        match r {
            Ok(_) => branch_name_error(branch@) is None,
            Err(e) => branch_name_error(branch@) == Some(e@),
        },
{
    let all = chars_of(branch);
    let t = trim_chars(all.as_slice());
    let dots = chars_of("..");
    if t.len() == 0 || t[0] == '-' || contains_chars(t.as_slice(), dots.as_slice()) {
        return Err(string_of(chars_of("Invalid branch name").as_slice()));
    }
    let mut i: usize = 0;
    while i < t.len()
        invariant
            i <= t.len(),
            t@ == trim(branch@),
            !(t@.len() == 0 || t@[0] == '-' || contains_seq(t@, ".."@)),
            forall|k: int| 0 <= k < i ==> branch_char_ok(#[trigger] t@[k]),
        decreases t.len() - i,
    {
        let c = t[i];
        if !(is_ascii_alnum_char(c) || c == '/' || c == '-' || c == '_' || c == '.') {
            assert(!branch_char_ok(t@[i as int]));
            return Err(
                string_of(
                    chars_of(
                        "Branch names may contain only ASCII letters, numbers, '/', '-', '_', and '.'",
                    ).as_slice(),
                ),
            );
        }
        i += 1;
    }
    Ok(())
}

// ---------------------------------------------------------------------------
// `git status --short --branch`
// ---------------------------------------------------------------------------

pub open spec fn is_branch_sep(c: char) -> bool {
    c == '.' || c == ' '
}

/// The branch named by the `## ` header line of `git status --short --branch`.
pub open spec fn branch_from_status(raw: Seq<char>) -> Seq<char> {
    let ls = lines(raw);
    if ls.len() == 0 || !starts_with(ls[0], "## "@) {
        "unknown"@
    } else {
        let line = ls[0].skip("## "@.len() as int);
        let rest = if starts_with(line, "No commits yet on "@) {
            line.skip("No commits yet on "@.len() as int)
        } else {
            line
        };
        let b = rest.take(first_where(rest, |c: char| is_branch_sep(c)) as int);
        if b.len() == 0 {
            "unknown"@
        } else {
            b
        }
    }
}

/// The branch is the name after `## ` (and after `No commits yet on `
/// before a first commit) up to the first `.` or space; a status whose
/// first line is no `## ` header names no branch.
pub proof fn lemma_branch_from_header(raw: Seq<char>, b: Seq<char>, tail: Seq<char>)
    requires
        b.len() > 0,
        forall|i: int| 0 <= i < b.len() ==> b[i] != '.' && b[i] != ' ',
        tail.len() == 0 || tail[0] == '.' || tail[0] == ' ',
    ensures
        lines(raw).len() > 0 && lines(raw)[0] == "## "@ + b + tail && !starts_with(b + tail, "No commits yet on "@)
            ==> branch_from_status(raw) == b,
        lines(raw).len() > 0 && lines(raw)[0] == "## No commits yet on "@ + b + tail ==> branch_from_status(raw)
            == b,
        lines(raw).len() > 0 && !starts_with(lines(raw)[0], "## "@) ==> branch_from_status(raw) == "unknown"@,
{
    reveal_strlit("## ");
    reveal_strlit("No commits yet on ");
    reveal_strlit("## No commits yet on ");
    let bt = b + tail;
    crate::text::lemma_first_where(bt, |c: char| is_branch_sep(c), b.len() as int);
    assert(bt.take(b.len() as int) =~= b);
    if lines(raw).len() > 0 && lines(raw)[0] == "## "@ + b + tail {
        let l = lines(raw)[0];
        assert(l.take(3) =~= "## "@);
        assert(l.skip(3) =~= bt);
    }
    if lines(raw).len() > 0 && lines(raw)[0] == "## No commits yet on "@ + b + tail {
        let l = lines(raw)[0];
        assert(l.take(3) =~= "## "@);
        let line = l.skip(3);
        assert(line =~= "No commits yet on "@ + bt);
        assert(line.take("No commits yet on "@.len() as int) =~= "No commits yet on "@);
        assert(line.skip("No commits yet on "@.len() as int) =~= bt);
    }
}

pub fn current_branch_from_status(raw: &str) -> (branch: String)
    ensures
        branch@ == branch_from_status(raw@),
{
    let all = chars_of(raw);
    let ls = lines_of(all.as_slice());
    proof {
        assert(ls@.len() == lines(raw@).len());
    }
    if ls.len() == 0 {
        return string_of(chars_of("unknown").as_slice());
    }
    let first = &ls[0];
    assert(first@ == lines(raw@)[0]);
    let head = chars_of("## ");
    if !starts_with_chars(first.as_slice(), head.as_slice()) {
        return string_of(chars_of("unknown").as_slice());
    }
    let line = slice_chars(first.as_slice(), head.len(), first.len());
    assert(line@ =~= first@.skip(head@.len() as int));
    let none_yet = chars_of("No commits yet on ");
    let rest = if starts_with_chars(line.as_slice(), none_yet.as_slice()) {
        let r = slice_chars(line.as_slice(), none_yet.len(), line.len());
        assert(r@ =~= line@.skip(none_yet@.len() as int));
        r
    } else {
        line
    };
    let mut k: usize = 0;
    while k < rest.len() && !(rest[k] == '.' || rest[k] == ' ')
        invariant
            k <= rest.len(),
            forall|j: int| 0 <= j < k ==> !is_branch_sep(#[trigger] rest@[j]),
        decreases rest.len() - k,
    {
        k += 1;
    }
    proof {
        lemma_first_where(rest@, |c: char| is_branch_sep(c), k as int);
    }
    if k == 0 {
        return string_of(chars_of("unknown").as_slice());
    }
    let b = slice_chars(rest.as_slice(), 0, k);
    assert(b@ =~= rest@.take(k as int));
    string_of(b.as_slice())
}

pub open spec fn warn_on_main_msg() -> Seq<char> {
    "warning: currently on main; create a feature branch before committing.\n"@
}

/// The text shown for a `git status` result.
pub open spec fn status_summary_spec(
    branch: Seq<char>,
    clean: bool,
    warn_on_main: bool,
    raw: Seq<char>,
) -> Seq<char> {
    "branch: "@ + branch + "\nclean: "@ + (if clean {
        "yes"@
    } else {
        "no"@
    }) + "\n"@ + (if warn_on_main {
        warn_on_main_msg()
    } else {
        seq![]
    }) + (if trim(raw).len() > 0 {
        "\n"@ + trim(raw)
    } else {
        seq![]
    })
}

pub fn status_summary_text(branch: &str, clean: bool, warn_on_main: bool, raw: &str) -> (s: String)
    ensures
        s@ == status_summary_spec(branch@, clean, warn_on_main, raw@),
{
    let mut s = String::new();
    push_str(&mut s, "branch: ");
    push_str(&mut s, branch);
    push_str(&mut s, "\nclean: ");
    if clean {
        push_str(&mut s, "yes");
    } else {
        push_str(&mut s, "no");
    }
    push_str(&mut s, "\n");
    if warn_on_main {
        push_str(&mut s, "warning: currently on main; create a feature branch before committing.\n");
    }
    let t = trim_chars(chars_of(raw).as_slice());
    if t.len() > 0 {
        push_str(&mut s, "\n");
        push_chars(&mut s, t.as_slice());
    }
    assert(s@ =~= status_summary_spec(branch@, clean, warn_on_main, raw@));
    s
}

pub open spec fn is_main_branch(branch: Seq<char>) -> bool {
    branch == "main"@ || branch == "master"@
}

/// What `status_summary` reports for the output `raw` of
/// `git status --short --branch`.
pub fn status_summary_from_output(raw: String) -> (out: GitStatusSummary)
    ensures
        out.branch@ == branch_from_status(raw@),
        out.clean == (lines(raw@).len() <= 1),
        out.warn_on_main == is_main_branch(branch_from_status(raw@)),
        out.raw@ == raw@,
        out.summary@ == status_summary_spec(
            branch_from_status(raw@),
            lines(raw@).len() <= 1,
            is_main_branch(branch_from_status(raw@)),
            raw@,
        ),
{
    let branch = current_branch_from_status(raw.as_str());
    let ls = lines_of(chars_of(raw.as_str()).as_slice());
    assert(ls@.len() == lines(raw@).len());
    let clean = ls.len() <= 1;
    let bc = chars_of(branch.as_str());
    let warn_on_main = crate::text::chars_eq(bc.as_slice(), chars_of("main").as_slice())
        || crate::text::chars_eq(bc.as_slice(), chars_of("master").as_slice());
    let summary = status_summary_text(branch.as_str(), clean, warn_on_main, raw.as_str());
    GitStatusSummary { branch, clean, warn_on_main, raw, summary }
}

// ---------------------------------------------------------------------------
// Diff summaries
// ---------------------------------------------------------------------------

/// One labelled list of a diff summary.
pub open spec fn diff_section(label: Seq<char>, files: Seq<Seq<char>>) -> Seq<char> {
    label + ":\n"@ + if files.len() == 0 {
        "- none\n"@
    } else {
        bullets(files)
    }
}

pub open spec fn diff_summary_spec(
    staged: Seq<Seq<char>>,
    unstaged: Seq<Seq<char>>,
    untracked: Seq<Seq<char>>,
    deleted: Seq<Seq<char>>,
    renamed: Seq<Seq<char>>,
    ignored: Seq<Seq<char>>,
    stat: Seq<char>,
) -> Seq<char> {
    diff_section("staged"@, staged) + diff_section("unstaged"@, unstaged) + diff_section(
        "untracked"@,
        untracked,
    ) + diff_section("deleted"@, deleted) + diff_section("renamed"@, renamed) + diff_section(
        "ignored"@,
        ignored,
    ) + if trim(stat).len() > 0 {
        "\nstat:\n"@ + trim(stat) + "\n"@
    } else {
        seq![]
    }
}

fn push_diff_section(out: &mut String, label: &str, files: &Vec<String>)
    ensures
        final(out)@ == old(out)@ + diff_section(label@, string_views(files@)),
{
    push_str(out, label);
    push_str(out, ":\n");
    if files.len() == 0 {
        push_str(out, "- none\n");
    } else {
        push_bullets(out, files.as_slice());
    }
    assert(final(out)@ =~= old(out)@ + diff_section(label@, string_views(files@)));
}

pub fn diff_summary_text(output: &GitDiffSummary) -> (s: String)
    ensures
        s@ == diff_summary_spec(
            string_views(output.staged@),
            string_views(output.unstaged@),
            string_views(output.untracked@),
            string_views(output.deleted@),
            string_views(output.renamed@),
            string_views(output.ignored@),
            output.stat@,
        ),
{
    let mut s = String::new();
    push_diff_section(&mut s, "staged", &output.staged);
    push_diff_section(&mut s, "unstaged", &output.unstaged);
    push_diff_section(&mut s, "untracked", &output.untracked);
    push_diff_section(&mut s, "deleted", &output.deleted);
    push_diff_section(&mut s, "renamed", &output.renamed);
    push_diff_section(&mut s, "ignored", &output.ignored);
    let t = trim_chars(chars_of(output.stat.as_str()).as_slice());
    if t.len() > 0 {
        push_str(&mut s, "\nstat:\n");
        push_chars(&mut s, t.as_slice());
        push_str(&mut s, "\n");
    }
    assert(s@ =~= diff_summary_spec(
        string_views(output.staged@),
        string_views(output.unstaged@),
        string_views(output.untracked@),
        string_views(output.deleted@),
        string_views(output.renamed@),
        string_views(output.ignored@),
        output.stat@,
    ));
    s
}

// ---------------------------------------------------------------------------
// Staged paths
// ---------------------------------------------------------------------------

/// A path that is absolute on POSIX (`/x`) or on Windows (`C:/x`, `C:\x`,
/// `\\server\share`).
pub open spec fn looks_absolute(t: Seq<char>) -> bool {
    (t.len() > 0 && t[0] == '/') || (t.len() >= 3 && (crate::text::is_ascii_upper(t[0])
        || crate::text::is_ascii_lower(t[0])) && t[1] == ':' && (t[2] == '/' || t[2] == '\\')) || (
    t.len() >= 2 && t[0] == '\\' && t[1] == '\\')
}

/// The paths that an explicit commit refuses: empty, the current directory,
/// a directory (trailing separator), an option, or an absolute path.
pub open spec fn stage_path_invalid(path: Seq<char>) -> bool {
    let t = trim(path);
    t.len() == 0 || t == "."@ || t == "./"@ || t == ".\\"@ || (t.len() > 0 && (t.last() == '/'
        || t.last() == '\\')) || (t.len() > 0 && t[0] == '-') || looks_absolute(t)
}

pub fn validate_stage_path(path: &str) -> (r: Result<(), String>)
    ensures
        match r {
            Ok(_) => !stage_path_invalid(path@),
            Err(e) => stage_path_invalid(path@) && e@ == "Invalid staged file path: "@ + path@,
        },
{
    let t = trim_chars(chars_of(path).as_slice());
    let n = t.len();
    let bad = n == 0 || crate::text::chars_eq(t.as_slice(), chars_of(".").as_slice())
        || crate::text::chars_eq(t.as_slice(), chars_of("./").as_slice())
        || crate::text::chars_eq(t.as_slice(), chars_of(".\\").as_slice()) || (n > 0 && (t[n - 1]
        == '/' || t[n - 1] == '\\')) || (n > 0 && t[0] == '-') || (n > 0 && t[0] == '/') || (n
        >= 3 && (('A' <= t[0] && t[0] <= 'Z') || ('a' <= t[0] && t[0] <= 'z')) && t[1] == ':' && (
    t[2] == '/' || t[2] == '\\')) || (n >= 2 && t[0] == '\\' && t[1] == '\\');
    if bad {
        let mut e = String::new();
        push_str(&mut e, "Invalid staged file path: ");
        push_str(&mut e, path);
        return Err(e);
    }
    Ok(())
}

/// `:(literal)` pathspec for a requested file.
pub fn literal_pathspec(path: &str) -> (s: String)
    ensures
        s@ == ":(literal)"@ + trim(path@),
{
    let mut s = String::new();
    push_str(&mut s, ":(literal)");
    let t = trim_chars(chars_of(path).as_slice());
    push_chars(&mut s, t.as_slice());
    s
}

/// A requested file as it is compared: trimmed, with `/` for `\`.
pub open spec fn normalized_file(f: Seq<char>) -> Seq<char> {
    trim(f).map_values(|c: char| if c == '\\' {
        '/'
    } else {
        c
    })
}

pub open spec fn normalized_set(files: Seq<Seq<char>>) -> Set<Seq<char>> {
    Set::new(
        |p: Seq<char>|
            exists|i: int|
                0 <= i < files.len() && p == normalized_file(#[trigger] files[i]) && p.len() > 0,
    )
}

fn normalize_file(f: &str) -> (s: String)
    ensures
        s@ == normalized_file(f@),
{
    let t = trim_chars(chars_of(f).as_slice());
    let mut out: Vec<char> = Vec::new();
    let mut i: usize = 0;
    while i < t.len()
        invariant
            i <= t.len(),
            out@ == t@.take(i as int).map_values(|c: char| if c == '\\' {
                '/'
            } else {
                c
            }),
        decreases t.len() - i,
    {
        let c = t[i];
        out.push(if c == '\\' {
            '/'
        } else {
            c
        });
        assert(t@.take(i + 1) =~= t@.take(i as int).push(c));
        assert(out@ =~= t@.take(i + 1).map_values(|c: char| if c == '\\' {
            '/'
        } else {
            c
        }));
        i += 1;
    }
    assert(t@.take(t.len() as int) =~= t@);
    string_of(out.as_slice())
}

/// Trimmed, `/`-separated, non-empty, ascending and without repeats.
pub fn sorted_unique(files: Vec<String>) -> (out: Vec<String>)
    ensures
        ascending(string_views(out@)),
        string_views(out@).to_set() == normalized_set(string_views(files@)),
{
    let mut out: Vec<String> = Vec::new();
    let mut i: usize = 0;
    assert(string_views(out@).to_set() =~= Set::<Seq<char>>::empty());
    while i < files.len()
        invariant
            i <= files.len(),
            ascending(string_views(out@)),
            string_views(out@).to_set() == normalized_set(string_views(files@).take(i as int)),
        decreases files.len() - i,
    {
        let f = normalize_file(files[i].as_str());
        let ghost before = string_views(out@).to_set();
        if f.as_str().is_empty() == false {
            insert_sorted(&mut out, f);
        }
        proof {
            let a = string_views(files@).take(i as int);
            let b = string_views(files@).take(i + 1);
            assert(b =~= a.push(files@[i as int]@));
            let nf = normalized_file(files@[i as int]@);
            if nf.len() > 0 {
                assert(normalized_set(b) =~= normalized_set(a).insert(nf)) by {
                    assert forall|p: Seq<char>| normalized_set(b).contains(p) implies normalized_set(
                        a,
                    ).insert(nf).contains(p) by {
                        let k = choose|k: int|
                            0 <= k < b.len() && p == normalized_file(#[trigger] b[k]) && p.len() > 0;
                        if k < i {
                            assert(a[k] == b[k]);
                        }
                    }
                    assert forall|p: Seq<char>| normalized_set(a).insert(nf).contains(
                        p,
                    ) implies normalized_set(b).contains(p) by {
                        if p == nf {
                            assert(b[i as int] == files@[i as int]@);
                        } else {
                            let k = choose|k: int|
                                0 <= k < a.len() && p == normalized_file(#[trigger] a[k]) && p.len()
                                    > 0;
                            assert(b[k] == a[k]);
                        }
                    }
                }
            } else {
                assert(normalized_set(b) =~= normalized_set(a)) by {
                    assert forall|p: Seq<char>| normalized_set(b).contains(p) implies normalized_set(
                        a,
                    ).contains(p) by {
                        let k = choose|k: int|
                            0 <= k < b.len() && p == normalized_file(#[trigger] b[k]) && p.len() > 0;
                        if k < i {
                            assert(a[k] == b[k]);
                        }
                    }
                    assert forall|p: Seq<char>| normalized_set(a).contains(p) implies normalized_set(
                        b,
                    ).contains(p) by {
                        let k = choose|k: int|
                            0 <= k < a.len() && p == normalized_file(#[trigger] a[k]) && p.len() > 0;
                        assert(b[k] == a[k]);
                    }
                }
            }
        }
        i += 1;
    }
    assert(string_views(files@).take(files.len() as int) =~= string_views(files@));
    out
}

/// The files of `staged` that are not among `approved`, in order.
pub fn unexpected_staged_files(staged: &[String], approved: &[String]) -> (out: Vec<String>)
    ensures
        string_views(out@) == staged@.map_values(|s: String| s@).filter(
            |f: Seq<char>| !approved@.map_values(|s: String| s@).contains(f),
        ),
{
    let ghost ap = approved@.map_values(|s: String| s@);
    let ghost st = staged@.map_values(|s: String| s@);
    let ghost pred = |f: Seq<char>| !ap.contains(f);
    let mut out: Vec<String> = Vec::new();
    let mut i: usize = 0;
    assert(st.take(0) =~= Seq::<Seq<char>>::empty());
    proof {
        reveal(Seq::filter);
        assert(st.take(0).filter(pred) =~= Seq::<Seq<char>>::empty());
        assert(string_views(out@) =~= Seq::<Seq<char>>::empty());
    }
    while i < staged.len()
        invariant
            i <= staged.len(),
            ap == approved@.map_values(|s: String| s@),
            st == staged@.map_values(|s: String| s@),
            pred == (|f: Seq<char>| !ap.contains(f)),
            string_views(out@) == st.take(i as int).filter(pred),
        decreases staged.len() - i,
    {
        let f = chars_of(staged[i].as_str());
        let mut found = false;
        let mut j: usize = 0;
        while j < approved.len()
            invariant
                j <= approved.len(),
                ap == approved@.map_values(|s: String| s@),
                f@ == st[i as int],
                i < staged.len(),
                st.len() == staged.len(),
                found ==> ap.contains(f@),
                !found ==> forall|k: int| 0 <= k < j ==> ap[k] != f@,
            decreases approved.len() - j,
        {
            if !found {
                let a = chars_of(approved[j].as_str());
                if crate::text::chars_eq(a.as_slice(), f.as_slice()) {
                    found = true;
                    assert(ap[j as int] == f@);
                }
            }
            j += 1;
        }
        let ghost before = string_views(out@);
        if !found {
            out.push(staged[i].clone());
        }
        proof {
            reveal(Seq::filter);
            let s1 = st.take(i + 1);
            assert(s1.drop_last() =~= st.take(i as int));
            assert(s1.last() == f@);
            if !found {
                assert(!ap.contains(f@));
                assert(string_views(out@) =~= before.push(f@));
            } else {
                assert(string_views(out@) =~= before);
            }
        }
        i += 1;
    }
    assert(st.take(staged.len() as int) =~= st);
    out
}

/// The sorted files that `git diff --cached --name-only` printed.
pub fn staged_files_from_output(stdout: &str) -> (out: Vec<String>)
    ensures
        ascending(string_views(out@)),
        string_views(out@).to_set() == normalized_set(lines(stdout@)),
{
    let ls = lines_of(chars_of(stdout).as_slice());
    let mut files: Vec<String> = Vec::new();
    let mut i: usize = 0;
    while i < ls.len()
        invariant
            i <= ls.len(),
            string_views(files@) == ls@.map_values(|l: Vec<char>| l@).take(i as int),
        decreases ls.len() - i,
    {
        let ghost before = string_views(files@);
        let line = string_of(ls[i].as_slice());
        files.push(line);
        assert(string_views(files@) =~= before.push(ls@[i as int]@));
        assert(string_views(files@) =~= ls@.map_values(|l: Vec<char>| l@).take(i + 1));
        i += 1;
    }
    assert(string_views(files@) =~= lines(stdout@));
    sorted_unique(files)
}

/// The staged state that a confirmation token is bound to.
pub fn commit_preview_text(status_stdout: &str, diff_stdout: &str) -> (s: String)
    ensures
        s@ == "status:\n"@ + status_stdout@ + "\n\ncached diff:\n"@ + diff_stdout@,
{
    let mut s = String::new();
    push_str(&mut s, "status:\n");
    push_str(&mut s, status_stdout);
    push_str(&mut s, "\n\ncached diff:\n");
    push_str(&mut s, diff_stdout);
    s
}

// ---------------------------------------------------------------------------
// `git status --porcelain`
// ---------------------------------------------------------------------------

/// Slicing a porcelain line at bytes 2 and 3 falls between characters.
pub open spec fn porcelain_line_ok(l: Seq<char>) -> bool {
    utf8_len(l) >= 3 ==> (exists|k: int| cut_at(l, k, 2)) && (exists|k: int| cut_at(l, k, 3))
}

pub open spec fn porcelain_ok(raw: Seq<char>) -> bool {
    forall|i: int| 0 <= i < lines(raw).len() ==> porcelain_line_ok(#[trigger] lines(raw)[i])
}

pub open spec fn index_status(st: Seq<char>) -> char {
    if st.len() > 0 {
        st[0]
    } else {
        ' '
    }
}

pub open spec fn worktree_status(st: Seq<char>) -> char {
    if st.len() > 1 {
        st[1]
    } else {
        ' '
    }
}

/// Porcelain categories, in the order `parse_porcelain` returns them.
pub open spec fn cat_staged() -> int {
    0
}

pub open spec fn cat_unstaged() -> int {
    1
}

pub open spec fn cat_untracked() -> int {
    2
}

pub open spec fn cat_deleted() -> int {
    3
}

pub open spec fn cat_renamed() -> int {
    4
}

pub open spec fn cat_ignored() -> int {
    5
}

/// Whether an entry with status `st` and path `path` belongs to `cat`.
pub open spec fn in_category(cat: int, st: Seq<char>, path: Seq<char>) -> bool {
    if st == "??"@ {
        cat == cat_untracked()
    } else if st == "!!"@ {
        cat == cat_ignored()
    } else {
        let i = index_status(st);
        let w = worktree_status(st);
        (cat == cat_staged() && i != ' ') || (cat == cat_unstaged() && w != ' ') || (cat
            == cat_deleted() && (i == 'D' || w == 'D')) || (cat == cat_renamed() && (i == 'R' || w
            == 'R' || contains_seq(path, " -> "@)))
    }
}

/// The paths of category `cat` among the lines `ls`.
pub open spec fn category_set(ls: Seq<Seq<char>>, cat: int) -> Set<Seq<char>> {
    Set::new(
        |p: Seq<char>|
            exists|i: int, k2: int, k3: int|
                0 <= i < ls.len() && utf8_len(ls[i]) >= 3 && #[trigger] cut_at(ls[i], k2, 2) && #[trigger] cut_at(ls[i], k3, 3) && p == ls[i].skip(k3) && in_category(
                    cat,
                    ls[i].take(k2),
                    p,
                ),
    )
}

pub open spec fn porcelain_set(raw: Seq<char>, cat: int) -> Set<Seq<char>> {
    category_set(lines(raw), cat)
}

/// The status and path of a porcelain line, when it is long enough.
fn porcelain_entry(l: &[char]) -> (r: Option<(Vec<char>, Vec<char>)>)
    requires
        porcelain_line_ok(l@),
    ensures
        r is Some <==> utf8_len(l@) >= 3,
        r matches Some((st, path)) ==> (exists|k2: int, k3: int|
            cut_at(l@, k2, 2) && cut_at(l@, k3, 3) && st@ == l@.take(k2) && path@ == l@.skip(k3)),
        r matches Some((st, path)) ==> (forall|k2: int, k3: int|
            cut_at(l@, k2, 2) && cut_at(l@, k3, 3) ==> st@ == l@.take(k2) && path@ == l@.skip(k3)),
{
    let mut acc: usize = 0;
    let mut i: usize = 0;
    let mut k2: Option<usize> = None;
    let mut k3: Option<usize> = None;
    assert(l@.take(0) =~= Seq::<char>::empty());
    while i < l.len() && acc <= 3
        invariant
            i <= l.len(),
            acc == utf8_len(l@.take(i as int)),
            acc <= 7,
            match k2 {
                Some(k) => k < i && cut_at(l@, k as int, 2),
                None => forall|j: int| 0 <= j < i ==> !cut_at(l@, j, 2),
            },
            match k3 {
                Some(k) => k < i && cut_at(l@, k as int, 3),
                None => forall|j: int| 0 <= j < i ==> !cut_at(l@, j, 3),
            },
        decreases l.len() - i,
    {
        if acc == 2 {
            k2 = Some(i);
        }
        if acc == 3 {
            k3 = Some(i);
        }
        proof {
            lemma_utf8_step(l@, i as int);
        }
        acc = acc + crate::text::utf8_char_len_exec(l[i]);
        i += 1;
    }
    if acc == 2 {
        k2 = Some(i);
    }
    if acc == 3 {
        k3 = Some(i);
    }
    proof {
        if i < l.len() {
            assert forall|j: int| i < j <= l.len() implies !cut_at(l@, j, 2) && !cut_at(
                l@,
                j,
                3,
            ) by {
                lemma_utf8_mono(l@, i as int, j);
            }
        }
        assert(l@.take(l.len() as int) =~= l@);
        if i < l.len() {
            lemma_utf8_mono(l@, i as int, l.len() as int);
        }
    }
    if acc < 3 && i == l.len() {
        return None;
    }
    assert(utf8_len(l@) >= 3);
    match (k2, k3) {
        (Some(a), Some(b)) => {
            let st = slice_chars(l, 0, a);
            let path = slice_chars(l, b, l.len());
            proof {
                assert(st@ =~= l@.take(a as int));
                assert(path@ =~= l@.skip(b as int));
                assert forall|x: int, y: int|
                    cut_at(l@, x, 2) && cut_at(l@, y, 3) implies st@ == l@.take(x) && path@
                    == l@.skip(y) by {
                    lemma_cut_unique(l@, x, a as int, 2);
                    lemma_cut_unique(l@, y, b as int, 3);
                }
            }
            Some((st, path))
        },
        _ => {
            proof {
                let x = choose|x: int| cut_at(l@, x, 2);
                let y = choose|y: int| cut_at(l@, y, 3);
                assert(x <= l.len() && y <= l.len());
            }
            None
        },
    }
}

fn in_category_exec(cat: u8, st: &[char], path: &[char]) -> (b: bool)
    ensures
        b == in_category(cat as int, st@, path@),
{
    if crate::text::chars_eq(st, chars_of("??").as_slice()) {
        return cat == 2;
    }
    if crate::text::chars_eq(st, chars_of("!!").as_slice()) {
        return cat == 5;
    }
    let i = if st.len() > 0 {
        st[0]
    } else {
        ' '
    };
    let w = if st.len() > 1 {
        st[1]
    } else {
        ' '
    };
    (cat == 0 && i != ' ') || (cat == 1 && w != ' ') || (cat == 3 && (i == 'D' || w == 'D')) || (
    cat == 4 && (i == 'R' || w == 'R' || contains_chars(path, chars_of(" -> ").as_slice())))
}

fn porcelain_category(ls: &Vec<Vec<char>>, cat: u8) -> (out: Vec<String>)
    requires
        forall|i: int| 0 <= i < ls@.len() ==> porcelain_line_ok(#[trigger] ls@[i]@),
    ensures
        ascending(string_views(out@)),
        string_views(out@).to_set() == category_set(ls@.map_values(|l: Vec<char>| l@), cat as int),
{
    let ghost all = ls@.map_values(|l: Vec<char>| l@);
    let mut out: Vec<String> = Vec::new();
    let mut i: usize = 0;
    assert(string_views(out@).to_set() =~= category_set(all.take(0), cat as int));
    while i < ls.len()
        invariant
            i <= ls.len(),
            all == ls@.map_values(|l: Vec<char>| l@),
            forall|i: int| 0 <= i < ls@.len() ==> porcelain_line_ok(#[trigger] ls@[i]@),
            ascending(string_views(out@)),
            string_views(out@).to_set() == category_set(all.take(i as int), cat as int),
        decreases ls.len() - i,
    {
        let ghost before = string_views(out@).to_set();
        let ghost a = all.take(i as int);
        let ghost b = all.take(i + 1);
        assert(b =~= a.push(ls@[i as int]@));
        let line = &ls[i];
        assert(porcelain_line_ok(ls@[i as int]@));
        match porcelain_entry(line.as_slice()) {
            None => {
                proof {
                    assert(category_set(b, cat as int) =~= category_set(a, cat as int)) by {
                        assert forall|p: Seq<char>| category_set(b, cat as int).contains(
                            p,
                        ) implies category_set(a, cat as int).contains(p) by {
                            let (x, k2, k3) = choose|x: int, k2: int, k3: int|
                                0 <= x < b.len() && utf8_len(b[x]) >= 3 && #[trigger] cut_at(b[x], k2, 2) && #[trigger] cut_at(b[x], k3, 3) && p == b[x].skip(k3) && in_category(
                                    cat as int,
                                    b[x].take(k2),
                                    p,
                                );
                            assert(x < i);
                            assert(a[x] == b[x]);
                        }
                        assert forall|p: Seq<char>| category_set(a, cat as int).contains(
                            p,
                        ) implies category_set(b, cat as int).contains(p) by {
                            let (x, k2, k3) = choose|x: int, k2: int, k3: int|
                                0 <= x < a.len() && utf8_len(a[x]) >= 3 && #[trigger] cut_at(a[x], k2, 2) && #[trigger] cut_at(a[x], k3, 3) && p == a[x].skip(k3) && in_category(
                                    cat as int,
                                    a[x].take(k2),
                                    p,
                                );
                            assert(b[x] == a[x]);
                        }
                    }
                }
            },
            Some((st, path)) => {
                let keep = in_category_exec(cat, st.as_slice(), path.as_slice());
                if keep {
                    insert_sorted(&mut out, string_of(path.as_slice()));
                }
                proof {
                    let l = ls@[i as int]@;
                    assert(b[i as int] == l);
                    let (a2, a3) = choose|k2: int, k3: int|
                        cut_at(l, k2, 2) && cut_at(l, k3, 3) && st@ == l.take(k2) && path@ == l.skip(
                            k3,
                        );
                    let target = if keep {
                        category_set(a, cat as int).insert(path@)
                    } else {
                        category_set(a, cat as int)
                    };
                    assert(category_set(b, cat as int) =~= target) by {
                        assert forall|p: Seq<char>| category_set(b, cat as int).contains(
                            p,
                        ) implies target.contains(p) by {
                            let (x, k2, k3) = choose|x: int, k2: int, k3: int|
                                0 <= x < b.len() && utf8_len(b[x]) >= 3 && #[trigger] cut_at(b[x], k2, 2) && #[trigger] cut_at(b[x], k3, 3) && p == b[x].skip(k3) && in_category(
                                    cat as int,
                                    b[x].take(k2),
                                    p,
                                );
                            if x < i {
                                assert(a[x] == b[x]);
                            } else {
                                assert(st@ == l.take(k2) && path@ == l.skip(k3));
                            }
                        }
                        assert forall|p: Seq<char>| target.contains(p) implies category_set(
                            b,
                            cat as int,
                        ).contains(p) by {
                            if keep && p == path@ {
                                assert(utf8_len(b[i as int]) >= 3);
                            } else {
                                let (x, k2, k3) = choose|x: int, k2: int, k3: int|
                                    0 <= x < a.len() && utf8_len(a[x]) >= 3 && #[trigger] cut_at(a[x], k2, 2) && #[trigger] cut_at(a[x], k3, 3) && p == a[x].skip(k3) && in_category(
                                        cat as int,
                                        a[x].take(k2),
                                        p,
                                    );
                                assert(b[x] == a[x]);
                            }
                        }
                    }
                }
            },
        }
        i += 1;
    }
    assert(all.take(ls.len() as int) =~= all);
    out
}

/// The files of `git status --porcelain` output by category: staged,
/// unstaged, untracked, deleted, renamed and ignored, each ascending.
pub fn parse_porcelain(raw: &str) -> (r: (
    Vec<String>,
    Vec<String>,
    Vec<String>,
    Vec<String>,
    Vec<String>,
    Vec<String>,
))
    requires
        porcelain_ok(raw@),
    ensures
        ascending(string_views(r.0@)) && string_views(r.0@).to_set() == porcelain_set(raw@, cat_staged()),
        ascending(string_views(r.1@)) && string_views(r.1@).to_set() == porcelain_set(raw@, cat_unstaged()),
        ascending(string_views(r.2@)) && string_views(r.2@).to_set() == porcelain_set(raw@, cat_untracked()),
        ascending(string_views(r.3@)) && string_views(r.3@).to_set() == porcelain_set(raw@, cat_deleted()),
        ascending(string_views(r.4@)) && string_views(r.4@).to_set() == porcelain_set(raw@, cat_renamed()),
        ascending(string_views(r.5@)) && string_views(r.5@).to_set() == porcelain_set(raw@, cat_ignored()),
{
    let ls = lines_of(chars_of(raw).as_slice());
    assert forall|i: int| 0 <= i < ls@.len() implies porcelain_line_ok(#[trigger] ls@[i]@) by {
        assert(ls@[i]@ == lines(raw@)[i]);
    }
    (
        porcelain_category(&ls, 0),
        porcelain_category(&ls, 1),
        porcelain_category(&ls, 2),
        porcelain_category(&ls, 3),
        porcelain_category(&ls, 4),
        porcelain_category(&ls, 5),
    )
}

/// Each porcelain entry lands in the categories its status calls for:
/// `??` untracked, `!!` ignored; otherwise a non-blank index column is
/// staged, a non-blank worktree column is unstaged, a `D` in either column
/// is deleted, and an `R` in either column or a ` -> ` in the path is
/// renamed.
pub proof fn lemma_porcelain_entry_categories(raw: Seq<char>, i: int, k2: int, k3: int)
    requires
        0 <= i < lines(raw).len(),
        utf8_len(lines(raw)[i]) >= 3,
        cut_at(lines(raw)[i], k2, 2),
        cut_at(lines(raw)[i], k3, 3),
    ensures
        ({
            let l = lines(raw)[i];
            let st = l.take(k2);
            let p = l.skip(k3);
            let special = st == "??"@ || st == "!!"@;
            &&& st == "??"@ ==> porcelain_set(raw, cat_untracked()).contains(p)
            &&& st == "!!"@ ==> porcelain_set(raw, cat_ignored()).contains(p)
            &&& (!special && st.len() > 0 && st[0] != ' ') ==> porcelain_set(raw, cat_staged()).contains(p)
            &&& (!special && st.len() > 1 && st[1] != ' ') ==> porcelain_set(raw, cat_unstaged()).contains(p)
            &&& ((st.len() > 0 && st[0] == 'D') || (st.len() > 1 && st[1] == 'D')) ==> porcelain_set(
                raw,
                cat_deleted(),
            ).contains(p)
            &&& (!special && ((st.len() > 0 && st[0] == 'R') || (st.len() > 1 && st[1] == 'R')
                || contains_seq(p, " -> "@))) ==> porcelain_set(raw, cat_renamed()).contains(p)
        }),
{
    reveal_strlit("??");
    reveal_strlit("!!");
    let ls = lines(raw);
    let l = ls[i];
    let st = l.take(k2);
    let p = l.skip(k3);
    assert forall|c: int| 0 <= c <= 5 && in_category(c, st, p) implies porcelain_set(raw, c).contains(p) by {
        assert(0 <= i < ls.len() && utf8_len(ls[i]) >= 3 && cut_at(ls[i], k2, 2) && cut_at(ls[i], k3, 3)
            && p == ls[i].skip(k3) && in_category(c, ls[i].take(k2), p));
    }
    if (st.len() > 0 && st[0] == 'D') || (st.len() > 1 && st[1] == 'D') {
        assert(st != "??"@ && st != "!!"@) by {
            if st.len() > 1 && st[1] == 'D' {
                assert("??"@[1] == '?' && "!!"@[1] == '!');
            }
        }
        assert(in_category(cat_deleted(), st, p));
    }
}

/// A path is listed as deleted only for an entry whose status has a `D`
/// in the index or the worktree column.
pub proof fn lemma_porcelain_deleted_has_d(raw: Seq<char>, p: Seq<char>)
    requires
        porcelain_set(raw, cat_deleted()).contains(p),
    ensures
        exists|i: int, k2: int, k3: int|
            0 <= i < lines(raw).len() && #[trigger] cut_at(lines(raw)[i], k2, 2) && #[trigger] cut_at(
                lines(raw)[i],
                k3,
                3,
            ) && p == lines(raw)[i].skip(k3) && ((lines(raw)[i].take(k2).len() > 0 && lines(raw)[i].take(
                k2,
            )[0] == 'D') || (lines(raw)[i].take(k2).len() > 1 && lines(raw)[i].take(k2)[1] == 'D')),
{
    reveal_strlit("??");
    reveal_strlit("!!");
    let ls = lines(raw);
    let (i, k2, k3) = choose|i: int, k2: int, k3: int|
        0 <= i < ls.len() && utf8_len(ls[i]) >= 3 && #[trigger] cut_at(ls[i], k2, 2) && #[trigger] cut_at(
            ls[i],
            k3,
            3,
        ) && p == ls[i].skip(k3) && in_category(cat_deleted(), ls[i].take(k2), p);
    assert(cut_at(lines(raw)[i], k2, 2) && cut_at(lines(raw)[i], k3, 3));
}

/// Whether `parse_porcelain` accepts `raw` (see `porcelain_ok`).
pub fn porcelain_slicing_ok(raw: &str) -> (b: bool)
    ensures
        b == porcelain_ok(raw@),
{
    let ls = lines_of(chars_of(raw).as_slice());
    let mut i: usize = 0;
    while i < ls.len()
        invariant
            i <= ls.len(),
            ls@.map_values(|l: Vec<char>| l@) == lines(raw@),
            forall|j: int| 0 <= j < i ==> porcelain_line_ok(#[trigger] lines(raw@)[j]),
        decreases ls.len() - i,
    {
        let l = &ls[i];
        assert(l@ == lines(raw@)[i as int]);
        let mut acc: usize = 0;
        let mut k: usize = 0;
        let mut has2 = false;
        let mut has3 = false;
        assert(l@.take(0) =~= Seq::<char>::empty());
        while k < l.len() && acc <= 3
            invariant
                k <= l.len(),
                acc == utf8_len(l@.take(k as int)),
                acc <= 7,
                has2 <==> exists|j: int| 0 <= j < k && cut_at(l@, j, 2),
                has3 <==> exists|j: int| 0 <= j < k && cut_at(l@, j, 3),
            decreases l.len() - k,
        {
            if acc == 2 {
                has2 = true;
            }
            if acc == 3 {
                has3 = true;
            }
            proof {
                lemma_utf8_step(l@, k as int);
                if acc == 2 {
                    assert(cut_at(l@, k as int, 2));
                }
                if acc == 3 {
                    assert(cut_at(l@, k as int, 3));
                }
            }
            acc = acc + crate::text::utf8_char_len_exec(l[k]);
            k += 1;
        }
        if acc == 2 {
            has2 = true;
        }
        if acc == 3 {
            has3 = true;
        }
        proof {
            if acc == 2 {
                assert(cut_at(l@, k as int, 2));
            }
            if acc == 3 {
                assert(cut_at(l@, k as int, 3));
            }
            if k < l.len() {
                assert forall|j: int| k < j <= l.len() implies !cut_at(l@, j, 2) && !cut_at(
                    l@,
                    j,
                    3,
                ) by {
                    lemma_utf8_mono(l@, k as int, j);
                }
                lemma_utf8_mono(l@, k as int, l.len() as int);
            }
            assert(l@.take(l.len() as int) =~= l@);
        }
        let long = acc >= 3 || k < l.len();
        if long && !(has2 && has3) {
            return false;
        }
        i += 1;
    }
    true
}

// ---------------------------------------------------------------------------
// Commit confirmation tokens
// ---------------------------------------------------------------------------

/// The 64-bit fingerprint that `std`'s `DefaultHasher` (created by
/// `DefaultHasher::new`) gives the fields of a staged commit preview.
pub uninterp spec fn commit_fingerprint_of(
    branch: Seq<char>,
    message: Seq<char>,
    files: Seq<Seq<char>>,
    verification_status: Seq<char>,
    preview_state: Seq<char>,
) -> u64;

/// Feeds the fields, in order, to a fresh `DefaultHasher` and returns
/// `finish()`. Stated: the result is a function of the fields alone (a
/// `DefaultHasher::new` hasher has fixed keys); not stated: which function.
#[verifier::external_body]
fn hash_commit_fields(
    branch: &str,
    message: &str,
    files: &[String],
    verification_status: &str,
    preview_state: &str,
) -> (h: u64)
    ensures
        h == commit_fingerprint_of(
            branch@,
            message@,
            string_views(files@),
            verification_status@,
            preview_state@,
        ),
{
    let mut hasher = DefaultHasher::new();
    (branch, message, files, verification_status, preview_state).hash(&mut hasher);
    hasher.finish()
}

/// The fingerprint a confirmation token carries: that of the branch, the
/// trimmed message, the files, the verification status and the preview.
pub open spec fn confirmation_fingerprint(
    branch: Seq<char>,
    message: Seq<char>,
    files: Seq<Seq<char>>,
    verification_status: Seq<char>,
    preview_state: Seq<char>,
) -> u64 {
    commit_fingerprint_of(branch, trim(message), files, verification_status, preview_state)
}

pub fn commit_confirmation_fingerprint(
    branch: &str,
    message: &str,
    files: &[String],
    verification_status: &str,
    preview_state: &str,
) -> (h: u64)
    ensures
        h == confirmation_fingerprint(
            branch@,
            message@,
            string_views(files@),
            verification_status@,
            preview_state@,
        ),
{
    let trimmed = crate::text::str_trim(message);
    hash_commit_fields(branch, trimmed.as_str(), files, verification_status, preview_state)
}

/// `commit:{issued_at}:{fingerprint:016x}`.
pub open spec fn token_text(issued_at: nat, fingerprint: nat) -> Seq<char> {
    "commit:"@ + decimal(issued_at) + ":"@ + hex_fixed(fingerprint, 16)
}

/// The token issued at `issued_at` (seconds since the Unix epoch).
pub fn commit_confirmation_token_at(
    issued_at: u64,
    branch: &str,
    message: &str,
    files: &[String],
    verification_status: &str,
    preview_state: &str,
) -> (t: String)
    ensures
        t@ == token_text(
            issued_at as nat,
            confirmation_fingerprint(
                branch@,
                message@,
                string_views(files@),
                verification_status@,
                preview_state@,
            ) as nat,
        ),
{
    let fingerprint = commit_confirmation_fingerprint(
        branch,
        message,
        files,
        verification_status,
        preview_state,
    );
    let mut t = String::new();
    push_str(&mut t, "commit:");
    let d = decimal_u64(issued_at);
    push_str(&mut t, d.as_str());
    push_str(&mut t, ":");
    let h = hex_fixed_u64(fingerprint, 16);
    push_str(&mut t, h.as_str());
    t
}

/// A token for the current time; the clock's error text if the clock reads
/// before the Unix epoch.
pub fn commit_confirmation_token(
    branch: &str,
    message: &str,
    files: &[String],
    verification_status: &str,
    preview_state: &str,
) -> (r: Result<String, String>)
    ensures
        r matches Ok(t) ==> exists|at: u64|
            t@ == token_text(
                at as nat,
                confirmation_fingerprint(
                    branch@,
                    message@,
                    string_views(files@),
                    verification_status@,
                    preview_state@,
                ) as nat,
            ),
{
    match crate::clock::unix_secs() {
        Err(e) => Err(e),
        Ok(secs) => Ok(
            commit_confirmation_token_at(
                secs,
                branch,
                message,
                files,
                verification_status,
                preview_state,
            ),
        ),
    }
}

pub open spec fn missing_token_msg() -> Seq<char> {
    "Run git_commit_verified with dry_run=true first and pass the returned commit_confirmation_token."@
}

pub open spec fn invalid_token_msg() -> Seq<char> {
    "Invalid commit confirmation token."@
}

pub open spec fn expired_token_msg() -> Seq<char> {
    "Commit confirmation token expired; run dry_run=true again."@
}

pub open spec fn mismatched_token_msg() -> Seq<char> {
    "Commit confirmation token does not match the current staged preview."@
}

/// The characters of an optional string.
pub open spec fn opt_view(s: Option<&str>) -> Option<Seq<char>> {
    match s {
        Some(t) => Some(t@),
        None => None,
    }
}

pub open spec fn u64_max() -> nat {
    0xffff_ffff_ffff_ffff
}

/// The verdict on `token` at time `now` (seconds) for the expected
/// fingerprint.
pub open spec fn token_verdict(token: Option<Seq<char>>, now: nat, expected: nat) -> Result<
    (),
    Seq<char>,
> {
    match token {
        None => Err(missing_token_msg()),
        Some(t) => if trim(t).len() == 0 {
            Err(missing_token_msg())
        } else {
            let parts = split_char(t, ':');
            if parts[0] != "commit"@ {
                Err(invalid_token_msg())
            } else if parts.len() < 2 || parse_uint(parts[1], 10, u64_max()) is Err {
                Err(invalid_token_msg())
            } else if parts.len() < 3 || parse_uint(parts[2], 16, u64_max()) is Err {
                Err(invalid_token_msg())
            } else if parts.len() > 3 {
                Err(invalid_token_msg())
            } else {
                let issued = parse_uint(parts[1], 10, u64_max())->Ok_0;
                let fingerprint = parse_uint(parts[2], 16, u64_max())->Ok_0;
                if now > issued && now - issued > 600 {
                    Err(expired_token_msg())
                } else if fingerprint != expected {
                    Err(mismatched_token_msg())
                } else {
                    Ok(())
                }
            }
        },
    }
}

fn err_text(s: &str) -> (r: Result<(), String>)
    ensures
        r matches Err(e) && e@ == s@,
{
    Err(string_of(chars_of(s).as_slice()))
}

/// Checks a token at time `now` against the current staged preview.
pub fn validate_commit_confirmation_token_at(
    token: Option<&str>,
    now: u64,
    branch: &str,
    message: &str,
    files: &[String],
    verification_status: &str,
    preview_state: &str,
) -> (r: Result<(), String>)
    ensures
        match r {
            Ok(_) => token_verdict(
                opt_view(token),
                now as nat,
                confirmation_fingerprint(
                    branch@,
                    message@,
                    string_views(files@),
                    verification_status@,
                    preview_state@,
                ) as nat,
            ) is Ok,
            Err(e) => token_verdict(
                opt_view(token),
                now as nat,
                confirmation_fingerprint(
                    branch@,
                    message@,
                    string_views(files@),
                    verification_status@,
                    preview_state@,
                ) as nat,
            ) == Err::<(), Seq<char>>(e@),
        },
{
    let ghost tok = match token {
        Some(t) => Some(t@),
        None => None::<Seq<char>>,
    };
    let ghost expected = confirmation_fingerprint(
        branch@,
        message@,
        string_views(files@),
        verification_status@,
        preview_state@,
    ) as nat;
    let t = match token {
        None => {
            return err_text(
                "Run git_commit_verified with dry_run=true first and pass the returned commit_confirmation_token.",
            );
        },
        Some(t) => t,
    };
    if crate::text::is_blank(t) {
        return err_text(
            "Run git_commit_verified with dry_run=true first and pass the returned commit_confirmation_token.",
        );
    }
    let parts = split_chars(chars_of(t).as_slice(), ':');
    let ghost ps = split_char(t@, ':');
    assert(parts@.map_values(|l: Vec<char>| l@) == ps);
    assert(parts@.len() == ps.len());
    proof {
        lemma_split_nonempty(t@, ':');
    }
    if !crate::text::chars_eq(parts[0].as_slice(), chars_of("commit").as_slice()) {
        assert(parts@[0]@ == ps[0]);
        return err_text("Invalid commit confirmation token.");
    }
    if parts.len() < 2 {
        return err_text("Invalid commit confirmation token.");
    }
    assert(parts@[1]@ == ps[1]);
    let issued_at = match parse_uint_exec(parts[1].as_slice(), 10, 0xffff_ffff_ffff_ffff) {
        Ok(v) => v,
        Err(_) => {
            return err_text("Invalid commit confirmation token.");
        },
    };
    if parts.len() < 3 {
        return err_text("Invalid commit confirmation token.");
    }
    assert(parts@[2]@ == ps[2]);
    let fingerprint = match parse_uint_exec(parts[2].as_slice(), 16, 0xffff_ffff_ffff_ffff) {
        Ok(v) => v,
        Err(_) => {
            return err_text("Invalid commit confirmation token.");
        },
    };
    if parts.len() > 3 {
        return err_text("Invalid commit confirmation token.");
    }
    if now > issued_at && now - issued_at > 600 {
        return err_text("Commit confirmation token expired; run dry_run=true again.");
    }
    let expected_fp = commit_confirmation_fingerprint(
        branch,
        message,
        files,
        verification_status,
        preview_state,
    );
    if fingerprint != expected_fp {
        return err_text("Commit confirmation token does not match the current staged preview.");
    }
    Ok(())
}

/// The error a token has before the time matters: none given, blank, or
/// not of the form `commit:<decimal>:<hex>`.
pub open spec fn token_format_error(token: Option<Seq<char>>) -> Option<Seq<char>> {
    match token {
        None => Some(missing_token_msg()),
        Some(t) => if trim(t).len() == 0 {
            Some(missing_token_msg())
        } else {
            let parts = split_char(t, ':');
            if parts[0] != "commit"@ || parts.len() < 2 || parse_uint(parts[1], 10, u64_max()) is Err
                || parts.len() < 3 || parse_uint(parts[2], 16, u64_max()) is Err || parts.len() > 3 {
                Some(invalid_token_msg())
            } else {
                None
            }
        },
    }
}

/// A token with a format error is refused with it at any time and for any
/// preview; a well-formed one is refused only as expired or mismatched.
pub proof fn lemma_token_format_decides(token: Option<Seq<char>>, now: nat, expected: nat)
    ensures
        token_format_error(token) matches Some(m) ==> token_verdict(token, now, expected) == Err::<
            (),
            Seq<char>,
        >(m),
        token_format_error(token) is None ==> match token_verdict(token, now, expected) {
            Ok(_) => true,
            Err(e) => e == expired_token_msg() || e == mismatched_token_msg(),
        },
{
}

/// Checks a token against the current staged preview at the current time:
/// a token that is missing, blank or malformed is refused with that error
/// before the clock is read; otherwise the clock's error text if it reads
/// before the Unix epoch, else the verdict at the time read.
pub fn validate_commit_confirmation_token(
    token: Option<&str>,
    branch: &str,
    message: &str,
    files: &[String],
    verification_status: &str,
    preview_state: &str,
) -> (r: Result<(), String>)
    ensures
        token_format_error(opt_view(token)) matches Some(m) ==> (r matches Err(e) && e@ == m),
        r is Ok ==> exists|now: u64|
            #[trigger] token_verdict(
                opt_view(token),
                now as nat,
                confirmation_fingerprint(
                    branch@,
                    message@,
                    string_views(files@),
                    verification_status@,
                    preview_state@,
                ) as nat,
            ) is Ok,
{
    let ghost expected = confirmation_fingerprint(
        branch@,
        message@,
        string_views(files@),
        verification_status@,
        preview_state@,
    ) as nat;
    let early = validate_commit_confirmation_token_at(
        token,
        0,
        branch,
        message,
        files,
        verification_status,
        preview_state,
    );
    proof {
        lemma_token_format_decides(opt_view(token), 0, expected);
        reveal_strlit(
            "Run git_commit_verified with dry_run=true first and pass the returned commit_confirmation_token.",
        );
        reveal_strlit("Invalid commit confirmation token.");
        reveal_strlit("Commit confirmation token expired; run dry_run=true again.");
        reveal_strlit("Commit confirmation token does not match the current staged preview.");
        assert(missing_token_msg()[0] == 'R');
        assert(invalid_token_msg()[0] == 'I');
        assert(expired_token_msg()[0] == 'C');
        assert(mismatched_token_msg()[0] == 'C');
    }
    match early {
        Err(e) => {
            if crate::text::str_eq(
                e.as_str(),
                "Run git_commit_verified with dry_run=true first and pass the returned commit_confirmation_token.",
            ) || crate::text::str_eq(e.as_str(), "Invalid commit confirmation token.") {
                return Err(e);
            }
        },
        Ok(_) => {},
    }
    match crate::clock::unix_secs() {
        Err(e) => Err(e),
        Ok(now) => validate_commit_confirmation_token_at(
            token,
            now,
            branch,
            message,
            files,
            verification_status,
            preview_state,
        ),
    }
}

proof fn lemma_split_nonempty(s: Seq<char>, c: char)
    ensures
        split_char(s, c).len() >= 1,
{
}

/// Splitting `a:b` at `:` when `a` holds no `:`.
proof fn lemma_split_head(a: Seq<char>, b: Seq<char>)
    requires
        forall|i: int| 0 <= i < a.len() ==> a[i] != ':',
    ensures
        split_char(a + ":"@ + b, ':') == seq![a] + split_char(b, ':'),
{
    reveal_strlit(":");
    let s = a + ":"@ + b;
    lemma_find_char(s, ':', a.len() as int);
    assert(s.take(a.len() as int) =~= a);
    assert(s.skip(a.len() + 1 as int) =~= b);
}

/// A token issued for a fingerprint is accepted for that fingerprint for ten
/// minutes after it was issued.
pub proof fn lemma_token_accepted_while_fresh(issued_at: u64, fingerprint: u64, now: nat)
    requires
        now <= issued_at + 600,
    ensures
        token_verdict(Some(token_text(issued_at as nat, fingerprint as nat)), now, fingerprint as nat)
            == Ok::<(), Seq<char>>(()),
{
    lemma_token_parts(issued_at, fingerprint);
}

/// A token is refused as expired more than ten minutes after it was issued.
pub proof fn lemma_token_expires(issued_at: u64, fingerprint: u64, expected: nat, now: nat)
    requires
        now > issued_at + 600,
    ensures
        token_verdict(Some(token_text(issued_at as nat, fingerprint as nat)), now, expected)
            == Err::<(), Seq<char>>(expired_token_msg()),
{
    lemma_token_parts(issued_at, fingerprint);
}

/// A fresh token is refused for any other fingerprint.
pub proof fn lemma_token_bound_to_fingerprint(
    issued_at: u64,
    fingerprint: u64,
    expected: nat,
    now: nat,
)
    requires
        now <= issued_at + 600,
        expected != fingerprint,
    ensures
        token_verdict(Some(token_text(issued_at as nat, fingerprint as nat)), now, expected)
            == Err::<(), Seq<char>>(mismatched_token_msg()),
{
    lemma_token_parts(issued_at, fingerprint);
}

proof fn lemma_token_parts(issued_at: u64, fingerprint: u64)
    ensures
        ({
            let t = token_text(issued_at as nat, fingerprint as nat);
            let parts = split_char(t, ':');
            &&& trim(t).len() > 0
            &&& parts.len() == 3
            &&& parts[0] == "commit"@
            &&& parse_uint(parts[1], 10, u64_max()) == Ok::<nat, IntErrorKind>(issued_at as nat)
            &&& parse_uint(parts[2], 16, u64_max()) == Ok::<nat, IntErrorKind>(fingerprint as nat)
        }),
{
    reveal_strlit("commit");
    reveal_strlit("commit:");
    reveal_strlit(":");
    let d = decimal(issued_at as nat);
    let h = hex_fixed(fingerprint as nat, 16);
    lemma_decimal_chars(issued_at as nat);
    lemma_hex_chars(fingerprint as nat, 16);
    lemma_decimal_parse(issued_at as nat, u64_max());
    lemma_pow16_16();
    lemma_hex_parse(fingerprint as nat, 16, u64_max());
    let t = token_text(issued_at as nat, fingerprint as nat);
    assert(t =~= "commit"@ + ":"@ + (d + ":"@ + h));
    lemma_split_head("commit"@, d + ":"@ + h);
    lemma_split_head(d, h);
    lemma_find_char(h, ':', h.len() as int);
    assert(split_char(h, ':') == seq![h]);
    assert(split_char(t, ':') =~= seq!["commit"@, d, h]);
    assert(h.len() == 16);
    assert(h[0] != '+');
    assert(d[0] != '+');
    // the token is not blank: its first character is 'c'
    assert(t[0] == 'c');
    crate::text::lemma_trim_start_at(t, 0);
    assert(trim_start(t) =~= t);
    crate::text::lemma_trim_end_at(t, t.len() as int);
}

// ---------------------------------------------------------------------------
// Verified commits: the decisions between the git and verification runs
// ---------------------------------------------------------------------------

pub fn join_with(items: &[String], sep: &str) -> (s: String)
    ensures
        s@ == joined(string_views(items@), sep@),
{
    let ghost iv = string_views(items@);
    let mut s = String::new();
    let mut i: usize = 0;
    assert(iv.take(0) =~= Seq::<Seq<char>>::empty());
    while i < items.len()
        invariant
            i <= items@.len(),
            iv == string_views(items@),
            s@ == joined(iv.take(i as int), sep@),
        decreases items@.len() - i,
    {
        assert(iv.take(i + 1).drop_last() =~= iv.take(i as int));
        assert(iv.take(i + 1).last() == items@[i as int]@);
        if i > 0 {
            push_str(&mut s, sep);
        } else {
            assert(iv.take(1) =~= seq![items@[0]@]);
        }
        push_str(&mut s, items[i].as_str());
        i += 1;
    }
    assert(iv.take(items@.len() as int) =~= iv);
    s
}

pub open spec fn empty_message_msg() -> Seq<char> {
    "Commit message must not be empty"@
}

pub open spec fn no_files_msg() -> Seq<char> {
    "git_commit_verified requires an explicit non-empty files list"@
}

/// The first requested file with an invalid path, if any.
pub open spec fn first_invalid(files: Seq<Seq<char>>) -> Option<Seq<char>>
    decreases files.len(),
{
    if files.len() == 0 {
        None
    } else if stage_path_invalid(files[0]) {
        Some(files[0])
    } else {
        first_invalid(files.drop_first())
    }
}

/// Checks a commit request: a message, some files, each a valid path.
/// Returns the files trimmed, with `/` separators, ascending and without
/// repeats.
pub fn check_commit_request(message: &str, files: Vec<String>) -> (r: Result<Vec<String>, String>)
    ensures
        match r {
            Ok(v) => trim(message@).len() > 0 && files@.len() > 0 && ascending(string_views(v@)) && string_views(
                v@,
            ).to_set() == normalized_set(string_views(files@)) && first_invalid(string_views(v@)) is None,
            Err(e) => if trim(message@).len() == 0 {
                e@ == empty_message_msg()
            } else if files@.len() == 0 {
                e@ == no_files_msg()
            } else {
                exists|v: Seq<Seq<char>>|
                    #[trigger] ascending(v) && v.to_set() == normalized_set(string_views(files@)) && (first_invalid(
                        v,
                    ) is Some) && e@ == "Invalid staged file path: "@ + first_invalid(v)->Some_0
            },
        },
{
    if crate::text::is_blank(message) {
        proof {
            reveal_strlit("Commit message must not be empty");
        }
        return Err(string_of(chars_of("Commit message must not be empty").as_slice()));
    }
    if files.len() == 0 {
        proof {
            reveal_strlit("git_commit_verified requires an explicit non-empty files list");
        }
        return Err(
            string_of(chars_of("git_commit_verified requires an explicit non-empty files list").as_slice()),
        );
    }
    let ghost fv = string_views(files@);
    let sorted = sorted_unique(files);
    let ghost sv = string_views(sorted@);
    let mut i: usize = 0;
    assert(sv.skip(0) =~= sv);
    while i < sorted.len()
        invariant
            i <= sorted@.len(),
            sv == string_views(sorted@),
            fv == string_views(files@),
            first_invalid(sv) == first_invalid(sv.skip(i as int)),
            ascending(sv),
            sv.to_set() == normalized_set(fv),
            trim(message@).len() > 0,
            fv.len() > 0,
        decreases sorted@.len() - i,
    {
        assert(sv.skip(i as int)[0] == sorted@[i as int]@);
        assert(sv.skip(i as int).drop_first() =~= sv.skip(i + 1));
        match validate_stage_path(sorted[i].as_str()) {
            Err(e) => {
                assert(first_invalid(sv) == Some(sorted@[i as int]@));
                assert(ascending(sv) && sv.to_set() == normalized_set(fv) && (first_invalid(sv) is Some)
                    && e@ == "Invalid staged file path: "@ + first_invalid(sv)->Some_0);
                return Err(e);
            },
            Ok(()) => {},
        }
        i += 1;
    }
    assert(sv.skip(sorted@.len() as int) =~= Seq::<Seq<char>>::empty());
    Ok(sorted)
}

pub open spec fn main_refusal_msg() -> Seq<char> {
    "Refusing to commit on main/master. Use git_create_feature_branch first, or pass allow_main=true for an explicit override."@
}

/// Commits on `main` or `master` need `allow_main`.
pub fn main_branch_check(branch: &str, allow_main: bool) -> (r: Result<(), String>)
    ensures
        match r {
            Ok(()) => !is_main_branch(branch@) || allow_main,
            Err(e) => is_main_branch(branch@) && !allow_main && e@ == main_refusal_msg(),
        },
{
    proof {
        reveal_strlit("main");
        reveal_strlit("master");
    }
    if (crate::text::str_eq(branch, "main") || crate::text::str_eq(branch, "master")) && !allow_main {
        return Err(
            string_of(
                chars_of(
                    "Refusing to commit on main/master. Use git_create_feature_branch first, or pass allow_main=true for an explicit override.",
                ).as_slice(),
            ),
        );
    }
    Ok(())
}

/// Whether a verification outcome lets the commit go on: a pass always; a
/// partial run with either override; a failure or no checks only with
/// `allow_failed_verification`.
pub open spec fn verification_lets_commit(status: Seq<char>, allow_failed: bool, allow_partial: bool) -> bool {
    if status == "PASSED"@ {
        true
    } else if status == "PARTIAL"@ {
        allow_partial || allow_failed
    } else if status == "FAILED"@ || status == "NOT_CONFIGURED"@ {
        allow_failed
    } else {
        false
    }
}

pub fn verification_allowed(status: &str, allow_failed: bool, allow_partial: bool) -> (b: bool)
    ensures
        b == verification_lets_commit(status@, allow_failed, allow_partial),
{
    if crate::text::str_eq(status, "PASSED") {
        true
    } else if crate::text::str_eq(status, "PARTIAL") {
        allow_partial || allow_failed
    } else if crate::text::str_eq(status, "FAILED") || crate::text::str_eq(status, "NOT_CONFIGURED") {
        allow_failed
    } else {
        false
    }
}

/// Nothing else may be staged before the requested files are.
pub fn unrelated_staged_check(already_staged: &[String], files: &[String]) -> (r: Result<(), String>)
    ensures
        ({
            let u = string_views(already_staged@).filter(|f: Seq<char>| !string_views(files@).contains(f));
            match r {
                Ok(()) => u.len() == 0,
                Err(e) => u.len() > 0 && e@ == "Refusing verified commit because unrelated files are already staged: "@
                    + joined(u, ", "@),
            }
        }),
{
    let unexpected = unexpected_staged_files(already_staged, files);
    assert(string_views(already_staged@) == already_staged@.map_values(|s: String| s@));
    if unexpected.len() > 0 {
        let mut e = String::new();
        push_str(&mut e, "Refusing verified commit because unrelated files are already staged: ");
        let j = join_with(unexpected.as_slice(), ", ");
        push_str(&mut e, j.as_str());
        return Err(e);
    }
    Ok(())
}

/// After staging, exactly the requested files are staged.
pub fn staged_match_check(files: &[String], staged: &[String]) -> (r: Result<(), String>)
    ensures
        match r {
            Ok(()) => string_views(staged@) == string_views(files@),
            Err(e) => string_views(staged@) != string_views(files@) && e@
                == "Refusing verified commit because staged files do not exactly match requested files.\nrequested: "@
                + joined(string_views(files@), ", "@) + "\nstaged: "@ + joined(string_views(staged@), ", "@),
        },
{
    let mut same = files.len() == staged.len();
    let mut i: usize = 0;
    assert(!same ==> string_views(staged@).len() != string_views(files@).len());
    while same && i < files.len()
        invariant
            i <= files@.len(),
            same ==> files@.len() == staged@.len(),
            same ==> forall|k: int| 0 <= k < i ==> files@[k]@ == staged@[k]@,
            !same ==> string_views(staged@) != string_views(files@),
        decreases files@.len() - i,
    {
        if !crate::text::str_eq(files[i].as_str(), staged[i].as_str()) {
            same = false;
            assert(string_views(staged@)[i as int] != string_views(files@)[i as int]);
        }
        i += 1;
    }
    if same {
        assert(string_views(staged@) =~= string_views(files@));
        return Ok(());
    }
    let mut e = String::new();
    push_str(&mut e, "Refusing verified commit because staged files do not exactly match requested files.\nrequested: ");
    push_str(&mut e, join_with(files, ", ").as_str());
    push_str(&mut e, "\nstaged: ");
    push_str(&mut e, join_with(staged, ", ").as_str());
    Err(e)
}

/// The outcome when verification does not let the commit go on.
pub fn blocked_commit_output(
    dry_run: bool,
    verification_status: String,
    verification_summary: String,
    staged_files: Vec<String>,
    commit_preview: GitDiffSummary,
) -> (o: GitCommitVerifiedOutput)
    ensures
        !o.success,
        o.dry_run == dry_run,
        o.verification_status == verification_status,
        o.verification_summary == verification_summary,
        o.staged_files == staged_files,
        o.confirmation_token is None,
        o.commit_preview == commit_preview,
        !o.commit.success,
        o.commit.summary@ == "verification did not pass; commit was not created"@,
        o.commit.stdout@.len() == 0,
        o.commit.stderr@.len() == 0,
{
    GitCommitVerifiedOutput {
        success: false,
        dry_run,
        verification_status,
        verification_summary,
        staged_files,
        confirmation_token: None,
        commit_preview,
        commit: GitCommandOutput {
            success: false,
            summary: string_of(chars_of("verification did not pass; commit was not created").as_slice()),
            stdout: String::new(),
            stderr: String::new(),
        },
    }
}

/// The outcome of a dry run: what would be committed and the token that
/// confirms it.
pub fn dry_run_commit_output(
    verification_status: String,
    verification_summary: String,
    staged_files: Vec<String>,
    token: String,
    commit_preview: GitDiffSummary,
) -> (o: GitCommitVerifiedOutput)
    ensures
        o.success,
        o.dry_run,
        o.verification_status == verification_status,
        o.verification_summary == verification_summary,
        o.staged_files == staged_files,
        o.confirmation_token == Some(token),
        o.commit_preview == commit_preview,
        o.commit.success,
        o.commit.summary@ == "dry run: verification passed and requested files would be staged/committed"@,
        o.commit.stdout@.len() == 0,
        o.commit.stderr@.len() == 0,
{
    GitCommitVerifiedOutput {
        success: true,
        dry_run: true,
        verification_status,
        verification_summary,
        staged_files,
        confirmation_token: Some(token),
        commit_preview,
        commit: GitCommandOutput {
            success: true,
            summary: string_of(
                chars_of("dry run: verification passed and requested files would be staged/committed").as_slice(),
            ),
            stdout: String::new(),
            stderr: String::new(),
        },
    }
}

/// The outcome of the commit itself.
pub fn finished_commit_output(
    verification_status: String,
    verification_summary: String,
    staged_files: Vec<String>,
    commit_preview: GitDiffSummary,
    commit: GitCommandOutput,
) -> (o: GitCommitVerifiedOutput)
    ensures
        o.success == commit.success,
        !o.dry_run,
        o.verification_status == verification_status,
        o.verification_summary == verification_summary,
        o.staged_files == staged_files,
        o.confirmation_token is None,
        o.commit_preview == commit_preview,
        o.commit == commit,
{
    GitCommitVerifiedOutput {
        success: commit.success,
        dry_run: false,
        verification_status,
        verification_summary,
        staged_files,
        confirmation_token: None,
        commit_preview,
        commit,
    }
}

// ---------------------------------------------------------------------------
// When a verified commit may stage and commit
// ---------------------------------------------------------------------------

/// What a verified commit does once the branch is known and verification
/// has run.
pub enum AddDecision {
    /// Verification does not let the commit go on: nothing is staged.
    Blocked,
    /// Run `git` with these arguments to stage exactly the files.
    Stage(Vec<String>),
}

/// The arguments that stage exactly `files`: `add --` and each file as a
/// literal pathspec.
pub open spec fn add_args(files: Seq<Seq<char>>) -> Seq<Seq<char>> {
    seq!["add"@, "--"@] + files.map_values(|f: Seq<char>| ":(literal)"@ + trim(f))
}

/// Decides whether `git add` may run: only on a branch the commit may use,
/// with a verification status that lets it go on, and with no unrelated
/// file already staged; a status that does not let it go on blocks the
/// commit before anything is staged.
pub fn decide_add(
    branch: &str,
    allow_main: bool,
    verification_status: &str,
    allow_failed: bool,
    allow_partial: bool,
    already_staged: &[String],
    files: &[String],
) -> (r: Result<AddDecision, String>)
    ensures
        ({
            let main_ok = !is_main_branch(branch@) || allow_main;
            let verified = verification_lets_commit(verification_status@, allow_failed, allow_partial);
            let unrelated = string_views(already_staged@).filter(|f: Seq<char>| !string_views(files@).contains(f));
            match r {
                Ok(AddDecision::Stage(args)) => main_ok && verified && unrelated.len() == 0 && string_views(args@)
                    == add_args(string_views(files@)),
                Ok(AddDecision::Blocked) => main_ok && !verified,
                Err(e) => (!main_ok && e@ == main_refusal_msg()) || (main_ok && verified && unrelated.len()
                    > 0 && e@ == "Refusing verified commit because unrelated files are already staged: "@
                    + joined(unrelated, ", "@)),
            }
        }),
{
    main_branch_check(branch, allow_main)?;
    if !verification_allowed(verification_status, allow_failed, allow_partial) {
        return Ok(AddDecision::Blocked);
    }
    unrelated_staged_check(already_staged, files)?;
    let mut args: Vec<String> = Vec::new();
    args.push(string_of(chars_of("add").as_slice()));
    args.push(string_of(chars_of("--").as_slice()));
    let ghost fv = string_views(files@);
    proof {
        reveal_strlit("add");
        reveal_strlit("--");
    }
    let mut i: usize = 0;
    while i < files.len()
        invariant
            i <= files@.len(),
            fv == string_views(files@),
            string_views(args@) == seq!["add"@, "--"@] + fv.take(i as int).map_values(
                |f: Seq<char>| ":(literal)"@ + trim(f),
            ),
        decreases files@.len() - i,
    {
        let ghost before = string_views(args@);
        args.push(literal_pathspec(files[i].as_str()));
        assert(fv[i as int] == files@[i as int]@);
        assert(fv.take(i + 1).map_values(|f: Seq<char>| ":(literal)"@ + trim(f)) =~= fv.take(
            i as int,
        ).map_values(|f: Seq<char>| ":(literal)"@ + trim(f)).push(":(literal)"@ + trim(fv[i as int])));
        assert(string_views(args@) =~= before.push(":(literal)"@ + trim(fv[i as int])));
        i += 1;
    }
    assert(fv.take(files@.len() as int) =~= fv);
    Ok(AddDecision::Stage(args))
}

/// Decides whether `git commit` may run after staging: only when the staged
/// files are exactly the requested ones and the confirmation token is
/// accepted for this preview; then the message to commit, trimmed.
pub fn decide_commit(
    files: &[String],
    staged_after_add: &[String],
    token: Option<&str>,
    branch: &str,
    message: &str,
    verification_status: &str,
    preview_state: &str,
) -> (r: Result<String, String>)
    ensures
        r matches Ok(m) ==> {
            &&& string_views(staged_after_add@) == string_views(files@)
            &&& m@ == trim(message@)
            &&& exists|now: u64|
                #[trigger] token_verdict(
                    opt_view(token),
                    now as nat,
                    confirmation_fingerprint(
                        branch@,
                        message@,
                        string_views(files@),
                        verification_status@,
                        preview_state@,
                    ) as nat,
                ) is Ok
        },
        string_views(staged_after_add@) != string_views(files@) ==> (r matches Err(e) && e@
            == "Refusing verified commit because staged files do not exactly match requested files.\nrequested: "@
            + joined(string_views(files@), ", "@) + "\nstaged: "@ + joined(string_views(staged_after_add@), ", "@)),
        string_views(staged_after_add@) == string_views(files@) ==> (token_format_error(opt_view(token)) matches Some(
            m,
        ) ==> (r matches Err(e) && e@ == m)),
{
    staged_match_check(files, staged_after_add)?;
    validate_commit_confirmation_token(
        token,
        branch,
        message,
        files,
        verification_status,
        preview_state,
    )?;
    Ok(string_of(crate::text::trim_chars(chars_of(message).as_slice()).as_slice()))
}

} // verus!
