//! The repository map written to `.catdesk/repo_map.md`: languages,
//! frameworks, important folders, entry points and build commands of a
//! workspace, from the list of its files.
use vstd::prelude::*;
use crate::text::string_views;
use crate::number::{decimal, decimal_u64};
use crate::sorted::{ascending, insert_sorted, lemma_lt_total, lemma_lt_transitive, seq_lt, chars_lt};
use crate::text::{
    bullets, chars_of, contains_seq, ends_with, find_char, push_str, starts_with, str_contains,
    string_of,
};

verus! {

pub const CATDESK_DIR: &'static str = ".catdesk";

pub const REPO_MAP_FILE: &'static str = "repo_map.md";

/// Files read before the scan stops.
pub const MAX_FILES_SCANNED: usize = 10000;

pub const MAX_IMPORTANT_FOLDERS: usize = 16;

pub const MAX_ENTRY_POINTS: usize = 24;

/// Directories the scan does not enter.
pub open spec fn ignored_dir(i: int) -> Seq<char> {
    seq![
        ".git"@, ".hg"@, ".svn"@, ".idea"@, ".vscode"@, ".catdesk"@, ".venv"@, "venv"@,
        "target"@, "node_modules"@, "dist"@, "build"@, "coverage"@, ".next"@, ".nuxt"@,
        ".svelte-kit"@, "vendor"@, "vendors"@, "__pycache__"@, ".pytest_cache"@,
        ".mypy_cache"@, ".ruff_cache"@, "review-bundles"@, "npm/bin"@,
    ][i]
}

pub const N_IGNORED_DIRS: usize = 24;

fn ignored_dir_at(i: usize) -> (s: &'static str)
    requires
        i < 24,
    ensures
        s@ == ignored_dir(i as int),
{
    let v: [&'static str; 24] = [
        ".git", ".hg", ".svn", ".idea", ".vscode", ".catdesk", ".venv", "venv", "target",
        "node_modules", "dist", "build", "coverage", ".next", ".nuxt", ".svelte-kit", "vendor",
        "vendors", "__pycache__", ".pytest_cache", ".mypy_cache", ".ruff_cache",
        "review-bundles", "npm/bin",
    ];
    proof {
        reveal_strlit(".git");
        reveal_strlit(".hg");
        reveal_strlit(".svn");
        reveal_strlit(".idea");
        reveal_strlit(".vscode");
        reveal_strlit(".catdesk");
        reveal_strlit(".venv");
        reveal_strlit("venv");
        reveal_strlit("target");
        reveal_strlit("node_modules");
        reveal_strlit("dist");
        reveal_strlit("build");
        reveal_strlit("coverage");
        reveal_strlit(".next");
        reveal_strlit(".nuxt");
        reveal_strlit(".svelte-kit");
        reveal_strlit("vendor");
        reveal_strlit("vendors");
        reveal_strlit("__pycache__");
        reveal_strlit(".pytest_cache");
        reveal_strlit(".mypy_cache");
        reveal_strlit(".ruff_cache");
        reveal_strlit("review-bundles");
        reveal_strlit("npm/bin");
    }
    v[i]
}

/// Backslashes read as slashes.
pub open spec fn slashed(s: Seq<char>) -> Seq<char> {
    s.map_values(|c: char| if c == '\\' { '/' } else { c })
}

/// A relative directory the scan skips: an ignored directory or inside one.
pub open spec fn ignored(rel: Seq<char>) -> bool {
    let r = slashed(rel);
    exists|i: int|
        0 <= i < 24 && (r == #[trigger] ignored_dir(i) || starts_with(r, ignored_dir(i) + "/"@))
}

/// Whether the scan skips the directory at `rel`.
pub fn is_ignored_dir(rel: &str) -> (b: bool)
    ensures
        b == ignored(rel@),
{
    let v = chars_of(rel);
    let mut r: Vec<char> = Vec::new();
    let mut k: usize = 0;
    while k < v.len()
        invariant
            k <= v@.len(),
            r@ == slashed(v@.take(k as int)),
        decreases v@.len() - k,
    {
        r.push(if v[k] == '\\' { '/' } else { v[k] });
        assert(slashed(v@.take(k + 1)) =~= slashed(v@.take(k as int)).push(r@.last()));
        k += 1;
    }
    assert(v@.take(v@.len() as int) =~= v@);
    let mut i: usize = 0;
    while i < 24
        invariant
            i <= 24,
            r@ == slashed(rel@),
            forall|j: int|
                0 <= j < i ==> !(r@ == #[trigger] ignored_dir(j) || starts_with(r@, ignored_dir(j) + "/"@)),
        decreases 24 - i,
    {
        let d = ignored_dir_at(i);
        let dc = chars_of(d);
        let mut dir_slash = string_of(dc.as_slice());
        push_str(&mut dir_slash, "/");
        proof {
            reveal_strlit("/");
        }
        if crate::text::chars_eq(r.as_slice(), dc.as_slice()) || crate::text::starts_with_chars(
            r.as_slice(),
            chars_of(dir_slash.as_str()).as_slice(),
        ) {
            return true;
        }
        i += 1;
    }
    false
}

// ---------------------------------------------------------------------------
// Languages
// ---------------------------------------------------------------------------

/// Position of the last `c` in `s`, or -1.
pub open spec fn rfind_char(s: Seq<char>, c: char) -> int
    decreases s.len(),
{
    if s.len() == 0 {
        -1
    } else if s.last() == c {
        s.len() - 1
    } else {
        rfind_char(s.drop_last(), c)
    }
}

/// The last component of a `/`-separated path.
pub open spec fn file_name_of(path: Seq<char>) -> Seq<char> {
    path.skip(rfind_char(path, '/') + 1)
}

/// `Path::extension` of a file name: what follows its last `.`, unless
/// that dot starts the name (or the name is `..`).
pub open spec fn extension_of(name: Seq<char>) -> Option<Seq<char>> {
    let k = rfind_char(name, '.');
    if k <= 0 || name == ".."@ {
        None
    } else {
        Some(name.skip(k + 1))
    }
}

/// The language of an extension.
pub open spec fn language_of_ext(e: Seq<char>) -> Option<Seq<char>> {
    if e == "rs"@ {
        Some("Rust"@)
    } else if e == "js"@ || e == "mjs"@ || e == "cjs"@ {
        Some("JavaScript"@)
    } else if e == "ts"@ || e == "tsx"@ {
        Some("TypeScript"@)
    } else if e == "py"@ {
        Some("Python"@)
    } else if e == "go"@ {
        Some("Go"@)
    } else if e == "java"@ {
        Some("Java"@)
    } else if e == "html"@ || e == "htm"@ {
        Some("HTML"@)
    } else if e == "css"@ {
        Some("CSS"@)
    } else if e == "json"@ {
        Some("JSON"@)
    } else if e == "toml"@ {
        Some("TOML"@)
    } else if e == "md"@ {
        Some("Markdown"@)
    } else if e == "yml"@ || e == "yaml"@ {
        Some("YAML"@)
    } else if e == "sh"@ || e == "bash"@ || e == "ps1"@ {
        Some("Shell"@)
    } else {
        None
    }
}

/// The language of a file, by its extension.
pub open spec fn language_of(path: Seq<char>) -> Option<Seq<char>> {
    match extension_of(file_name_of(path)) {
        Some(e) => language_of_ext(e),
        None => None,
    }
}

/// The last `c` of `a + b` is that of `a` where `b` holds no `c`.
proof fn lemma_rfind_char_suffix(a: Seq<char>, b: Seq<char>, c: char)
    requires
        !b.contains(c),
    ensures
        rfind_char(a + b, c) == rfind_char(a, c),
    decreases b.len(),
{
    if b.len() == 0 {
        assert(a + b =~= a);
    } else {
        assert((a + b).drop_last() =~= a + b.drop_last());
        assert((a + b).last() == b.last());
        assert(b.last() == b[b.len() - 1]);
        assert(!b.drop_last().contains(c)) by {
            assert forall|k: int| 0 <= k < b.drop_last().len() implies b.drop_last()[k] != c by {
                assert(b.drop_last()[k] == b[k]);
            }
        }
        lemma_rfind_char_suffix(a, b.drop_last(), c);
    }
}

/// The name `stem.ext` has extension `ext` and no `/`.
proof fn lemma_dotted_name(stem: Seq<char>, ext: Seq<char>)
    requires
        stem.len() > 0,
        ext.len() > 0,
        !stem.contains('/'),
        !ext.contains('/'),
        !ext.contains('.'),
    ensures
        extension_of(stem + "."@ + ext) == Some(ext),
        !(stem + "."@ + ext).contains('/'),
{
    reveal_strlit(".");
    reveal_strlit("..");
    let name = stem + "."@ + ext;
    assert forall|k: int| 0 <= k < name.len() implies name[k] != '/' by {
        if k < stem.len() {
            assert(name[k] == stem[k]);
        } else if k > stem.len() {
            assert(name[k] == ext[k - stem.len() - 1]);
        }
    }
    let sd = stem + "."@;
    assert(name =~= sd + ext);
    lemma_rfind_char_suffix(sd, ext, '.');
    assert(sd.drop_last() =~= stem);
    assert(sd.last() == '.');
    assert(rfind_char(sd, '.') == stem.len());
    assert(name.skip((stem.len() + 1) as int) =~= ext);
    assert(name.len() >= 3);
}

/// The last component of `dir/name`, and of `name` alone, is `name`
/// where `name` holds no `/`.
proof fn lemma_file_name_under(dir: Seq<char>, name: Seq<char>)
    requires
        !name.contains('/'),
    ensures
        file_name_of(name) == name,
        file_name_of(dir + "/"@ + name) == name,
{
    reveal_strlit("/");
    lemma_rfind_char_suffix(Seq::<char>::empty(), name, '/');
    assert(Seq::<char>::empty() + name =~= name);
    assert(name.skip(0) =~= name);
    let ds = dir + "/"@;
    assert(dir + "/"@ + name =~= ds + name);
    lemma_rfind_char_suffix(ds, name, '/');
    assert(ds.drop_last() =~= dir);
    assert(ds.last() == '/');
    assert((ds + name).skip((dir.len() + 1) as int) =~= name);
}

/// A file's language follows from the extension after the last dot of
/// its name, whatever folder it is in and whatever dots the stem holds.
pub proof fn lemma_language_by_extension(dir: Seq<char>, stem: Seq<char>, ext: Seq<char>)
    requires
        stem.len() > 0,
        ext.len() > 0,
        !stem.contains('/'),
        !ext.contains('/'),
        !ext.contains('.'),
    ensures
        language_of(stem + "."@ + ext) == language_of_ext(ext),
        language_of(dir + "/"@ + stem + "."@ + ext) == language_of_ext(ext),
{
    lemma_dotted_name(stem, ext);
    let name = stem + "."@ + ext;
    lemma_file_name_under(dir, name);
    assert(dir + "/"@ + stem + "."@ + ext =~= dir + "/"@ + name);
}

fn rfind_exec(s: &[char], c: char) -> (r: Option<usize>)
    ensures
        match r {
            Some(k) => k < s@.len() && rfind_char(s@, c) == k,
            None => rfind_char(s@, c) == -1,
        },
{
    let mut j: usize = s.len();
    assert(s@.take(j as int) =~= s@);
    while j > 0
        invariant
            j <= s@.len(),
            rfind_char(s@, c) == rfind_char(s@.take(j as int), c),
        decreases j,
    {
        if s[j - 1] == c {
            return Some(j - 1);
        }
        assert(s@.take(j as int).drop_last() =~= s@.take(j - 1));
        j -= 1;
    }
    None
}

fn eq_lit(s: &[char], lit: &str) -> (b: bool)
    ensures
        b == (s@ == lit@),
{
    crate::text::chars_eq(s, chars_of(lit).as_slice())
}

fn language_of_ext_exec(e: &[char]) -> (r: Option<&'static str>)
    ensures
        match r {
            Some(l) => language_of_ext(e@) == Some(l@),
            None => language_of_ext(e@) is None,
        },
{
    if eq_lit(e, "rs") {
        Some("Rust")
    } else if eq_lit(e, "js") || eq_lit(e, "mjs") || eq_lit(e, "cjs") {
        Some("JavaScript")
    } else if eq_lit(e, "ts") || eq_lit(e, "tsx") {
        Some("TypeScript")
    } else if eq_lit(e, "py") {
        Some("Python")
    } else if eq_lit(e, "go") {
        Some("Go")
    } else if eq_lit(e, "java") {
        Some("Java")
    } else if eq_lit(e, "html") || eq_lit(e, "htm") {
        Some("HTML")
    } else if eq_lit(e, "css") {
        Some("CSS")
    } else if eq_lit(e, "json") {
        Some("JSON")
    } else if eq_lit(e, "toml") {
        Some("TOML")
    } else if eq_lit(e, "md") {
        Some("Markdown")
    } else if eq_lit(e, "yml") || eq_lit(e, "yaml") {
        Some("YAML")
    } else if eq_lit(e, "sh") || eq_lit(e, "bash") || eq_lit(e, "ps1") {
        Some("Shell")
    } else {
        None
    }
}

/// The language of the file at `path`, if it is one the map counts.
pub fn file_language(path: &str) -> (r: Option<&'static str>)
    ensures
        match r {
            Some(l) => language_of(path@) == Some(l@),
            None => language_of(path@) is None,
        },
{
    let p = chars_of(path);
    let start = match rfind_exec(p.as_slice(), '/') {
        Some(k) => {
            assert(k < p.len());
            k + 1
        },
        None => 0,
    };
    let name = crate::text::slice_chars(p.as_slice(), start, p.len());
    assert(name@ =~= file_name_of(path@));
    let dot = match rfind_exec(name.as_slice(), '.') {
        Some(k) => k,
        None => {
            return None;
        },
    };
    if dot == 0 || eq_lit(name.as_slice(), "..") {
        return None;
    }
    let ext = crate::text::slice_chars(name.as_slice(), dot + 1, name.len());
    assert(ext@ =~= name@.skip(dot + 1));
    language_of_ext_exec(ext.as_slice())
}

// ---------------------------------------------------------------------------
// Counting and ranking
// ---------------------------------------------------------------------------

/// How many keys are `k`.
pub open spec fn key_count(keys: Seq<Option<Seq<char>>>, k: Seq<char>) -> nat
    decreases keys.len(),
{
    if keys.len() == 0 {
        0
    } else {
        key_count(keys.drop_last(), k) + (if keys.last() == Some(k) {
            1nat
        } else {
            0nat
        })
    }
}

pub type Tally = Seq<(Seq<char>, nat)>;

pub open spec fn tally_view(v: Seq<(String, usize)>) -> Tally {
    v.map_values(|e: (String, usize)| (e.0@, e.1 as nat))
}

pub open spec fn tally_names(t: Tally) -> Seq<Seq<char>> {
    t.map_values(|e: (Seq<char>, nat)| e.0)
}

/// Each key that occurs, once, with the number of times it occurs.
pub open spec fn counts_keys(t: Tally, keys: Seq<Option<Seq<char>>>) -> bool {
    &&& tally_names(t).no_duplicates()
    &&& forall|i: int| 0 <= i < t.len() ==> #[trigger] t[i].1 == key_count(keys, t[i].0) && t[i].1 > 0
    &&& forall|k: Seq<char>| key_count(keys, k) > 0 ==> tally_names(t).contains(k)
}

/// Higher counts first, then names in ascending order.
pub open spec fn ranks_before(a: (Seq<char>, nat), b: (Seq<char>, nat)) -> bool {
    a.1 > b.1 || (a.1 == b.1 && seq_lt(a.0, b.0))
}

pub open spec fn ranked(t: Tally) -> bool {
    forall|i: int, j: int| 0 <= i < j < t.len() ==> ranks_before(#[trigger] t[i], #[trigger] t[j])
}

proof fn lemma_key_count_step(keys: Seq<Option<Seq<char>>>, n: int, k: Seq<char>)
    requires
        0 <= n < keys.len(),
    ensures
        key_count(keys.take(n + 1), k) == key_count(keys.take(n), k) + (if keys[n] == Some(k) {
            1nat
        } else {
            0nat
        }),
{
    assert(keys.take(n + 1).drop_last() =~= keys.take(n));
}

/// Where `name` is in the tally.
fn find_name(t: &Vec<(String, usize)>, name: &str) -> (r: Option<usize>)
    ensures
        match r {
            Some(j) => j < t@.len() && t@[j as int].0@ == name@,
            None => forall|j: int| 0 <= j < t@.len() ==> (#[trigger] t@[j]).0@ != name@,
        },
{
    let kc = chars_of(name);
    let mut p: usize = 0;
    while p < t.len()
        invariant
            p <= t@.len(),
            kc@ == name@,
            forall|j: int| 0 <= j < p ==> (#[trigger] t@[j]).0@ != name@,
        decreases t@.len() - p,
    {
        if crate::text::chars_eq(chars_of(t[p].0.as_str()).as_slice(), kc.as_slice()) {
            return Some(p);
        }
        p += 1;
    }
    None
}

/// Counts the keys that are present.
fn tally(keys: &Vec<Option<String>>) -> (t: Vec<(String, usize)>)
    ensures
        counts_keys(tally_view(t@), keys@.map_values(|k: Option<String>| opt_view(k))),
{
    let ghost kv = keys@.map_values(|k: Option<String>| opt_view(k));
    let mut t: Vec<(String, usize)> = Vec::new();
    let mut i: usize = 0;
    assert(kv.take(0) =~= Seq::<Option<Seq<char>>>::empty());
    assert(tally_names(tally_view(t@)) =~= Seq::<Seq<char>>::empty());
    while i < keys.len()
        invariant
            i <= keys@.len(),
            kv == keys@.map_values(|k: Option<String>| opt_view(k)),
            counts_keys(tally_view(t@), kv.take(i as int)),
            forall|j: int| 0 <= j < t@.len() ==> #[trigger] t@[j].1 <= i,
        decreases keys@.len() - i,
    {
        let ghost before = tally_view(t@);
        proof {
            assert forall|k: Seq<char>| true implies key_count(kv.take(i + 1), k) == key_count(
                kv.take(i as int),
                k,
            ) + (if kv[i as int] == Some(k) {
                1nat
            } else {
                0nat
            }) by {
                lemma_key_count_step(kv, i as int, k);
            }
        }
        match &keys[i] {
            None => {
                proof {
                    assert(kv[i as int] is None);
                    assert(tally_view(t@) == before);
                }
            },
            Some(key) => {
                assert(kv[i as int] == Some(key@));
                let found = find_name(&t, key.as_str());
                let p: usize = match found {
                    Some(j) => j,
                    None => t.len(),
                };
                if p < t.len() {
                    let name = t[p].0.clone();
                    let c = t[p].1;
                    assert(c <= i);
                    t.set(p, (name, c + 1));
                    proof {
                        let after = tally_view(t@);
                        assert(after =~= before.update(p as int, (key@, (c + 1) as nat)));
                        assert(tally_names(after) =~= tally_names(before));
                        assert forall|j: int| 0 <= j < after.len() implies #[trigger] after[j].1
                            == key_count(kv.take(i + 1), after[j].0) && after[j].1 > 0 by {
                            lemma_key_count_step(kv, i as int, after[j].0);
                            assert(before[j].1 == key_count(kv.take(i as int), before[j].0));
                            if j != p {
                                assert(tally_names(before)[j] != tally_names(before)[p as int]);
                                assert(before[j].0 == tally_names(before)[j]);
                                assert(before[p as int].0 == tally_names(before)[p as int]);
                            }
                        }
                        assert forall|k: Seq<char>| key_count(kv.take(i + 1), k) > 0 implies tally_names(
                            after,
                        ).contains(k) by {
                            if k != key@ {
                                assert(tally_names(before).contains(k));
                            } else {
                                assert(tally_names(after)[p as int] == k);
                            }
                        }
                    }
                } else {
                    let name = key.clone();
                    t.push((name, 1));
                    proof {
                        let after = tally_view(t@);
                        assert(after =~= before.push((key@, 1nat)));
                        assert(tally_names(after) =~= tally_names(before).push(key@));
                        assert(!tally_names(before).contains(key@)) by {
                            if tally_names(before).contains(key@) {
                                let j = choose|j: int| 0 <= j < tally_names(before).len() && tally_names(before)[j] == key@;
                                assert(t@[j].0@ == key@);
                            }
                        }
                        assert forall|j: int| 0 <= j < after.len() implies #[trigger] after[j].1
                            == key_count(kv.take(i + 1), after[j].0) && after[j].1 > 0 by {
                            if j < before.len() {
                                assert(tally_names(before)[j] != key@);
                                assert(before[j].0 == tally_names(before)[j]);
                            } else {
                                assert(key_count(kv.take(i as int), key@) == 0) by {
                                    if key_count(kv.take(i as int), key@) > 0 {
                                        assert(tally_names(before).contains(key@));
                                    }
                                }
                            }
                        }
                        assert forall|k: Seq<char>| key_count(kv.take(i + 1), k) > 0 implies tally_names(
                            after,
                        ).contains(k) by {
                            if k != key@ {
                                assert(tally_names(before).contains(k));
                                let j = choose|j: int| 0 <= j < tally_names(before).len() && tally_names(before)[j] == k;
                                assert(tally_names(after)[j] == k);
                            } else {
                                assert(tally_names(after)[before.len() as int] == k);
                            }
                        }
                    }
                }
            },
        }
        i += 1;
    }
    assert(kv.take(keys@.len() as int) =~= kv);
    t
}

pub open spec fn opt_view(k: Option<String>) -> Option<Seq<char>> {
    match k {
        Some(s) => Some(s@),
        None => None,
    }
}

proof fn lemma_rank_total(a: (Seq<char>, nat), b: (Seq<char>, nat))
    requires
        a.0 != b.0,
    ensures
        ranks_before(a, b) || ranks_before(b, a),
{
    lemma_lt_total(a.0, b.0);
}

proof fn lemma_rank_transitive(a: (Seq<char>, nat), b: (Seq<char>, nat), c: (Seq<char>, nat))
    requires
        ranks_before(a, b),
        ranks_before(b, c),
    ensures
        ranks_before(a, c),
{
    if a.1 == b.1 && b.1 == c.1 {
        lemma_lt_transitive(a.0, b.0, c.0);
    }
}

fn ranks_before_exec(a: &(String, usize), b: &(String, usize)) -> (r: bool)
    ensures
        r == ranks_before((a.0@, a.1 as nat), (b.0@, b.1 as nat)),
{
    a.1 > b.1 || (a.1 == b.1 && chars_lt(chars_of(a.0.as_str()).as_slice(), chars_of(b.0.as_str()).as_slice()))
}

/// Where `item` goes in the ranked `r`: after every entry it does not rank
/// before.
fn rank_position(r: &Vec<(String, usize)>, item: &(String, usize)) -> (p: usize)
    ensures
        p <= r@.len(),
        forall|j: int| 0 <= j < p ==> !ranks_before((item.0@, item.1 as nat), #[trigger] tally_view(r@)[j]),
        p < r@.len() ==> ranks_before((item.0@, item.1 as nat), tally_view(r@)[p as int]),
{
    let mut p: usize = 0;
    while p < r.len()
        invariant
            p <= r@.len(),
            forall|j: int| 0 <= j < p ==> !ranks_before((item.0@, item.1 as nat), #[trigger] tally_view(r@)[j]),
        decreases r@.len() - p,
    {
        if ranks_before_exec(item, &r[p]) {
            return p;
        }
        p += 1;
    }
    p
}

proof fn lemma_rank_insert(rv: Tally, it: (Seq<char>, nat), p: int)
    requires
        0 <= p <= rv.len(),
        ranked(rv),
        tally_names(rv).no_duplicates(),
        !tally_names(rv).contains(it.0),
        forall|j: int| 0 <= j < p ==> !ranks_before(it, #[trigger] rv[j]),
        p < rv.len() ==> ranks_before(it, rv[p]),
    ensures
        ranked(rv.insert(p, it)),
        tally_names(rv.insert(p, it)).no_duplicates(),
        rv.insert(p, it).to_set() == rv.to_set().insert(it),
{
    let nv = rv.insert(p, it);
    assert forall|j: int| 0 <= j < p implies ranks_before(#[trigger] rv[j], it) by {
        assert(tally_names(rv)[j] == rv[j].0);
        if rv[j].0 == it.0 {
            assert(tally_names(rv).contains(it.0));
        }
        lemma_rank_total(rv[j], it);
    }
    assert forall|a: int, b: int| 0 <= a < b < nv.len() implies ranks_before(#[trigger] nv[a], #[trigger] nv[b]) by {
        if b < p {
            assert(nv[a] == rv[a] && nv[b] == rv[b]);
        } else if b == p {
            assert(nv[a] == rv[a]);
        } else if a < p {
            assert(nv[a] == rv[a] && nv[b] == rv[b - 1]);
            if b - 1 > p {
                lemma_rank_transitive(it, rv[p], rv[b - 1]);
            }
            lemma_rank_transitive(rv[a], it, rv[b - 1]);
        } else if a == p {
            assert(nv[b] == rv[b - 1]);
            if b - 1 > p {
                lemma_rank_transitive(it, rv[p], rv[b - 1]);
            }
        } else {
            assert(nv[a] == rv[a - 1] && nv[b] == rv[b - 1]);
        }
    }
    assert(tally_names(nv) =~= tally_names(rv).insert(p, it.0));
    assert forall|a: int, b: int| 0 <= a < b < tally_names(nv).len() implies tally_names(nv)[a] != tally_names(nv)[b] by {
        let na = tally_names(nv);
        let ns = tally_names(rv);
        if a == p {
            assert(ns[b - 1] == na[b]);
        } else if b == p {
            assert(ns[a] == na[a]);
        } else {
            let ia = if a < p { a } else { a - 1 };
            let ib = if b < p { b } else { b - 1 };
            assert(ns[ia] == na[a] && ns[ib] == na[b]);
        }
    }
    assert(nv.to_set() =~= rv.to_set().insert(it)) by {
        assert forall|x| nv.to_set().contains(x) implies rv.to_set().insert(it).contains(x) by {
            let k = choose|k: int| 0 <= k < nv.len() && nv[k] == x;
            if k < p {
                assert(rv[k] == x);
            } else if k > p {
                assert(rv[k - 1] == x);
            }
        }
        assert forall|x| rv.to_set().insert(it).contains(x) implies nv.to_set().contains(x) by {
            if x == it {
                assert(nv[p] == x);
            } else {
                let k = choose|k: int| 0 <= k < rv.len() && rv[k] == x;
                if k < p {
                    assert(nv[k] == x);
                } else {
                    assert(nv[k + 1] == x);
                }
            }
        }
    }
}

/// The entries in ranked order: highest count first, ties by name.
fn rank(t: Vec<(String, usize)>) -> (r: Vec<(String, usize)>)
    requires
        tally_names(tally_view(t@)).no_duplicates(),
    ensures
        ranked(tally_view(r@)),
        tally_view(r@).to_set() == tally_view(t@).to_set(),
        tally_names(tally_view(r@)).no_duplicates(),
{
    let ghost tv = tally_view(t@);
    let mut rest = t;
    let mut r: Vec<(String, usize)> = Vec::new();
    let mut i: usize = 0;
    let n = rest.len();
    assert(tally_view(rest@).skip(0) =~= tally_view(rest@));
    assert(tally_view(r@).to_set() =~= tv.take(0).to_set());
    assert(tally_names(tally_view(r@)) =~= Seq::<Seq<char>>::empty());
    while i < n
        invariant
            i <= n == tv.len(),
            tally_view(rest@) == tv.skip(i as int),
            tally_names(tv).no_duplicates(),
            ranked(tally_view(r@)),
            tally_view(r@).to_set() == tv.take(i as int).to_set(),
            tally_names(tally_view(r@)).no_duplicates(),
        decreases n - i,
    {
        let ghost rest0 = rest@;
        let ghost rv = tally_view(r@);
        assert(tally_view(rest@).len() == rest@.len());
        let item = rest.remove(0);
        assert(rest0[0] == item);
        let ghost it = tv[i as int];
        proof {
            assert(tally_view(rest0)[0] == (item.0@, item.1 as nat));
            assert(tv.skip(i as int)[0] == tv[i as int]);
            assert(rest@ =~= rest0.drop_first());
            assert forall|j: int| 0 <= j < tally_view(rest@).len() implies #[trigger] tally_view(rest@)[j] == tv.skip(i + 1)[j] by {
                assert(tally_view(rest@)[j] == tally_view(rest0)[j + 1]);
                assert(tally_view(rest0)[j + 1] == tv.skip(i as int)[j + 1]);
            }
            assert(tally_view(rest@) =~= tv.skip(i + 1));
            assert(!tally_names(rv).contains(it.0)) by {
                if tally_names(rv).contains(it.0) {
                    let j = choose|j: int| 0 <= j < tally_names(rv).len() && tally_names(rv)[j] == it.0;
                    assert(rv.to_set().contains(rv[j]));
                    assert(tv.take(i as int).to_set().contains(rv[j]));
                    let k = choose|k: int| 0 <= k < tv.take(i as int).len() && tv.take(i as int)[k] == rv[j];
                    assert(tally_names(tv)[k] == tally_names(tv)[i as int]);
                }
            }
        }
        let p = rank_position(&r, &item);
        r.insert(p, item);
        proof {
            lemma_rank_insert(rv, it, p as int);
            assert(tally_view(r@) =~= rv.insert(p as int, it));
            let a = tv.take(i + 1);
            let b = tv.take(i as int);
            assert(a =~= b.push(it));
            assert(a.to_set() =~= b.to_set().insert(it)) by {
                assert forall|x| a.to_set().contains(x) implies b.to_set().insert(it).contains(x) by {
                    let k = choose|k: int| 0 <= k < a.len() && #[trigger] a[k] == x;
                    if k < i {
                        assert(b[k] == x);
                    }
                }
                assert forall|x| b.to_set().insert(it).contains(x) implies a.to_set().contains(x) by {
                    if x == it {
                        assert(a[i as int] == x);
                    } else {
                        let k = choose|k: int| 0 <= k < b.len() && #[trigger] b[k] == x;
                        assert(a[k] == x);
                    }
                }
            }
        }
        i += 1;
    }
    assert(tv.take(n as int) =~= tv);
    r
}

proof fn lemma_counts_keys_same_set(a: Tally, b: Tally, keys: Seq<Option<Seq<char>>>)
    requires
        counts_keys(a, keys),
        a.to_set() == b.to_set(),
        tally_names(b).no_duplicates(),
    ensures
        counts_keys(b, keys),
{
    assert forall|i: int| 0 <= i < b.len() implies #[trigger] b[i].1 == key_count(keys, b[i].0) && b[i].1 > 0 by {
        assert(b.to_set().contains(b[i]));
        let j = choose|j: int| 0 <= j < a.len() && a[j] == b[i];
        assert(a[j].1 == key_count(keys, a[j].0));
    }
    assert forall|k: Seq<char>| key_count(keys, k) > 0 implies tally_names(b).contains(k) by {
        assert(tally_names(a).contains(k));
        let j = choose|j: int| 0 <= j < tally_names(a).len() && tally_names(a)[j] == k;
        assert(a.to_set().contains(a[j]));
        let m = choose|m: int| 0 <= m < b.len() && b[m] == a[j];
        assert(tally_names(b)[m] == k);
    }
}

/// Counts the present keys and ranks them.
fn ranked_tally(keys: &Vec<Option<String>>) -> (r: Vec<(String, usize)>)
    ensures
        ranked(tally_view(r@)),
        counts_keys(tally_view(r@), keys@.map_values(|k: Option<String>| opt_view(k))),
{
    let t = tally(keys);
    let r = rank(t);
    proof {
        lemma_counts_keys_same_set(
            tally_view(t@),
            tally_view(r@),
            keys@.map_values(|k: Option<String>| opt_view(k)),
        );
    }
    r
}

pub open spec fn language_keys(files: Seq<Seq<char>>) -> Seq<Option<Seq<char>>> {
    files.map_values(|f: Seq<char>| language_of(f))
}

/// `Language (count)`.
pub open spec fn language_line(e: (Seq<char>, nat)) -> Seq<char> {
    e.0 + " ("@ + decimal(e.1) + ")"@
}

/// The languages of the files with their file counts, most files first,
/// ties by name.
pub fn detect_languages(files: &[String]) -> (out: Vec<String>)
    ensures
        exists|t: Tally|
            ranked(t) && counts_keys(t, language_keys(string_views(files@)))
                && string_views(out@) == t.map_values(|e: (Seq<char>, nat)| language_line(e)),
{
    let mut keys: Vec<Option<String>> = Vec::new();
    let mut i: usize = 0;
    while i < files.len()
        invariant
            i <= files@.len(),
            keys@.map_values(|k: Option<String>| opt_view(k)) == language_keys(
                string_views(files@),
            ).take(i as int),
        decreases files@.len() - i,
    {
        let ghost before = keys@;
        let k = match file_language(files[i].as_str()) {
            Some(l) => Some(owned(l)),
            None => None,
        };
        let ghost kk = opt_view(k);
        assert(kk == language_of(files@[i as int]@));
        keys.push(k);
        assert(before.map_values(|k: Option<String>| opt_view(k)).len() == before.len());
        assert(keys@ == before.push(keys@[i as int]));
        assert(opt_view(keys@[i as int]) == kk);
        assert(string_views(files@)[i as int] == files@[i as int]@);
        assert(language_keys(string_views(files@))[i as int] == language_of(files@[i as int]@));
        assert(keys@.map_values(|k: Option<String>| opt_view(k)) =~= language_keys(
            string_views(files@),
        ).take(i + 1));
        i += 1;
    }
    assert(language_keys(string_views(files@)).take(files@.len() as int) =~= language_keys(
        string_views(files@),
    ));
    let r = ranked_tally(&keys);
    let out = format_entries(&r, " (", ")");
    proof {
        reveal_strlit(" (");
        reveal_strlit(")");
        assert(string_views(out@) =~= tally_view(r@).map_values(|e: (Seq<char>, nat)| language_line(e)));
    }
    out
}

fn owned(s: &str) -> (r: String)
    ensures
        r@ == s@,
{
    s.to_owned()
}

/// `{name}{mid}{count}{end}` for each entry.
fn format_entries(r: &Vec<(String, usize)>, mid: &str, end: &str) -> (out: Vec<String>)
    ensures
        string_views(out@) == tally_view(r@).map_values(
            |e: (Seq<char>, nat)| e.0 + mid@ + decimal(e.1) + end@,
        ),
{
    let mut out: Vec<String> = Vec::new();
    let mut i: usize = 0;
    while i < r.len()
        invariant
            i <= r@.len(),
            string_views(out@) == tally_view(r@).map_values(
                |e: (Seq<char>, nat)| e.0 + mid@ + decimal(e.1) + end@,
            ).take(i as int),
        decreases r@.len() - i,
    {
        let mut line = owned(r[i].0.as_str());
        push_str(&mut line, mid);
        push_str(&mut line, decimal_u64(r[i].1 as u64).as_str());
        push_str(&mut line, end);
        let ghost before = out@;
        out.push(line);
        assert(tally_view(r@)[i as int] == (r@[i as int].0@, r@[i as int].1 as nat));
        assert(string_views(before).len() == before.len());
        assert(before.len() == i);
        assert(out@ == before.push(out@[i as int]));
        assert(string_views(out@)[i as int] == out@[i as int]@);
        assert(string_views(out@) =~= tally_view(r@).map_values(
            |e: (Seq<char>, nat)| e.0 + mid@ + decimal(e.1) + end@,
        ).take(i + 1));
        i += 1;
    }
    assert(tally_view(r@).map_values(|e: (Seq<char>, nat)| e.0 + mid@ + decimal(e.1) + end@).take(
        r@.len() as int,
    ) =~= tally_view(r@).map_values(|e: (Seq<char>, nat)| e.0 + mid@ + decimal(e.1) + end@));
    out
}

// ---------------------------------------------------------------------------
// Folders
// ---------------------------------------------------------------------------

/// The top folder of a relative path, when it is a plain folder name (not
/// `.` and without a dot).
pub open spec fn folder_key(rel: Seq<char>) -> Option<Seq<char>> {
    let k = find_char(rel, '/');
    let top = if k >= 0 {
        rel.take(k)
    } else {
        rel
    };
    if top != "."@ && !top.contains('.') {
        Some(top)
    } else {
        None
    }
}

pub open spec fn folder_keys(rels: Seq<Seq<char>>) -> Seq<Option<Seq<char>>> {
    rels.map_values(|r: Seq<char>| folder_key(r))
}

/// `folder/ (n files)`.
pub open spec fn folder_line(e: (Seq<char>, nat)) -> Seq<char> {
    e.0 + "/ ("@ + decimal(e.1) + " files)"@
}

fn folder_key_exec(rel: &str) -> (r: Option<String>)
    ensures
        opt_view(r) == folder_key(rel@),
{
    let v = chars_of(rel);
    let mut k: usize = 0;
    while k < v.len() && v[k] != '/'
        invariant
            k <= v@.len(),
            forall|j: int| 0 <= j < k ==> v@[j] != '/',
        decreases v@.len() - k,
    {
        k += 1;
    }
    proof {
        crate::text::lemma_find_char(v@, '/', k as int);
    }
    let top = crate::text::slice_chars(v.as_slice(), 0, k);
    assert(top@ =~= (if find_char(rel@, '/') >= 0 {
        rel@.take(find_char(rel@, '/'))
    } else {
        rel@
    }));
    if !eq_lit(top.as_slice(), ".") && !crate::text::char_in(top.as_slice(), '.') {
        Some(string_of(top.as_slice()))
    } else {
        None
    }
}

/// The top folders holding the most files, with their file counts; at
/// most sixteen.
pub fn detect_important_folders(rels: &[String]) -> (out: Vec<String>)
    ensures
        exists|t: Tally|
            ranked(t) && counts_keys(t, folder_keys(string_views(rels@)))
                && string_views(out@) == t.take(
                if t.len() > MAX_IMPORTANT_FOLDERS {
                    MAX_IMPORTANT_FOLDERS as int
                } else {
                    t.len() as int
                },
            ).map_values(|e: (Seq<char>, nat)| folder_line(e)),
{
    let mut keys: Vec<Option<String>> = Vec::new();
    let mut i: usize = 0;
    while i < rels.len()
        invariant
            i <= rels@.len(),
            keys@.map_values(|k: Option<String>| opt_view(k)) == folder_keys(
                string_views(rels@),
            ).take(i as int),
        decreases rels@.len() - i,
    {
        let ghost before = keys@;
        let k = folder_key_exec(rels[i].as_str());
        let ghost kk = opt_view(k);
        keys.push(k);
        assert(before.map_values(|k: Option<String>| opt_view(k)).len() == before.len());
        assert(keys@ == before.push(keys@[i as int]));
        assert(opt_view(keys@[i as int]) == kk);
        assert(string_views(rels@)[i as int] == rels@[i as int]@);
        assert(folder_keys(string_views(rels@))[i as int] == folder_key(rels@[i as int]@));
        assert(keys@.map_values(|k: Option<String>| opt_view(k)) =~= folder_keys(
            string_views(rels@),
        ).take(i + 1));
        i += 1;
    }
    assert(folder_keys(string_views(rels@)).take(rels@.len() as int) =~= folder_keys(
        string_views(rels@),
    ));
    let mut r = ranked_tally(&keys);
    let ghost full = tally_view(r@);
    if r.len() > MAX_IMPORTANT_FOLDERS {
        r.truncate(MAX_IMPORTANT_FOLDERS);
    }
    assert(tally_view(r@) =~= full.take(
        if full.len() > MAX_IMPORTANT_FOLDERS {
            MAX_IMPORTANT_FOLDERS as int
        } else {
            full.len() as int
        },
    ));
    let out = format_entries(&r, "/ (", " files)");
    proof {
        reveal_strlit("/ (");
        reveal_strlit(" files)");
        assert(string_views(out@) =~= tally_view(r@).map_values(|e: (Seq<char>, nat)| folder_line(e)));
    }
    out
}

// ---------------------------------------------------------------------------
// Frameworks and commands
// ---------------------------------------------------------------------------

/// The frameworks named in `Cargo.toml` and `package.json`, in ascending
/// order of their labels.
pub open spec fn frameworks_of(cargo: Seq<char>, package: Seq<char>) -> Seq<Seq<char>> {
    (if contains_seq(cargo, "axum"@) { seq!["Axum"@] } else { seq![] })
        + (if contains_seq(cargo, "crossterm"@) { seq!["Crossterm"@] } else { seq![] })
        + (if contains_seq(package, "next"@) { seq!["Next.js"@] } else { seq![] })
        + (if contains_seq(cargo, "ratatui"@) { seq!["Ratatui"@] } else { seq![] })
        + (if contains_seq(package, "react"@) { seq!["React"@] } else { seq![] })
        + (if contains_seq(cargo, "reqwest"@) { seq!["Reqwest"@] } else { seq![] })
        + (if contains_seq(cargo, "tokio"@) { seq!["Tokio"@] } else { seq![] })
        + (if contains_seq(cargo, "tree-sitter"@) { seq!["Tree-sitter"@] } else { seq![] })
        + (if contains_seq(package, "typescript"@) { seq!["TypeScript"@] } else { seq![] })
        + (if contains_seq(package, "vite"@) { seq!["Vite"@] } else { seq![] })
        + (if contains_seq(cargo, "ngrok"@) { seq!["ngrok Rust SDK"@] } else { seq![] })
}

fn push_if(out: &mut Vec<String>, on: bool, label: &str)
    ensures
        string_views(final(out)@) == string_views(old(out)@) + (if on {
            seq![label@]
        } else {
            seq![]
        }),
{
    if on {
        out.push(owned(label));
    }
    assert(string_views(out@) =~= string_views(old(out)@) + (if on {
        seq![label@]
    } else {
        seq![]
    }));
}

/// The frameworks a workspace uses, from the texts of its `Cargo.toml`
/// and `package.json` (empty when absent).
pub fn detect_frameworks(cargo: &str, package: &str) -> (out: Vec<String>)
    ensures
        string_views(out@) == frameworks_of(cargo@, package@),
{
    let mut out: Vec<String> = Vec::new();
    assert(string_views(out@) =~= Seq::<Seq<char>>::empty());
    push_if(&mut out, str_contains(cargo, "axum"), "Axum");
    push_if(&mut out, str_contains(cargo, "crossterm"), "Crossterm");
    push_if(&mut out, str_contains(package, "next"), "Next.js");
    push_if(&mut out, str_contains(cargo, "ratatui"), "Ratatui");
    push_if(&mut out, str_contains(package, "react"), "React");
    push_if(&mut out, str_contains(cargo, "reqwest"), "Reqwest");
    push_if(&mut out, str_contains(cargo, "tokio"), "Tokio");
    push_if(&mut out, str_contains(cargo, "tree-sitter"), "Tree-sitter");
    push_if(&mut out, str_contains(package, "typescript"), "TypeScript");
    push_if(&mut out, str_contains(package, "vite"), "Vite");
    push_if(&mut out, str_contains(cargo, "ngrok"), "ngrok Rust SDK");
    assert(string_views(out@) =~= frameworks_of(cargo@, package@));
    out
}

/// The runner of `package.json` scripts, by lock file.
pub open spec fn node_runner(files: crate::verification::WorkspaceFiles) -> Seq<char> {
    if crate::verification::has_file(files, "pnpm-lock.yaml"@) {
        "pnpm"@
    } else if crate::verification::has_file(files, "yarn.lock"@) {
        "yarn"@
    } else if crate::verification::has_file(files, "bun.lockb"@) || crate::verification::has_file(
        files,
        "bun.lock"@,
    ) {
        "bun"@
    } else {
        "npm"@
    }
}

/// The lock file decides who runs the workspace's Node scripts: pnpm's
/// first, then yarn's, then bun's; npm without one. Each script that
/// `package.json` mentions is listed run by that runner.
pub proof fn lemma_node_runner_by_lock(files: crate::verification::WorkspaceFiles)
    ensures
        crate::verification::has_file(files, "pnpm-lock.yaml"@) ==> node_runner(files) == "pnpm"@,
        !crate::verification::has_file(files, "pnpm-lock.yaml"@) && crate::verification::has_file(
            files,
            "yarn.lock"@,
        ) ==> node_runner(files) == "yarn"@,
        !crate::verification::has_file(files, "pnpm-lock.yaml"@) && !crate::verification::has_file(
            files,
            "yarn.lock"@,
        ) && (crate::verification::has_file(files, "bun.lock"@) || crate::verification::has_file(
            files,
            "bun.lockb"@,
        )) ==> node_runner(files) == "bun"@,
        !crate::verification::has_file(files, "pnpm-lock.yaml"@) && !crate::verification::has_file(
            files,
            "yarn.lock"@,
        ) && !crate::verification::has_file(files, "bun.lock"@) && !crate::verification::has_file(
            files,
            "bun.lockb"@,
        ) ==> node_runner(files) == "npm"@,
        crate::verification::has_file(files, "package.json"@) && contains_seq(
            package_text(files),
            "\"test\""@,
        ) ==> build_commands(files).contains(node_runner(files) + " test"@),
        crate::verification::has_file(files, "package.json"@) && contains_seq(
            package_text(files),
            "\"build\""@,
        ) ==> build_commands(files).contains(node_runner(files) + " run build"@),
        crate::verification::has_file(files, "package.json"@) && contains_seq(
            package_text(files),
            "\"lint\""@,
        ) ==> build_commands(files).contains(node_runner(files) + " run lint"@),
        crate::verification::has_file(files, "Cargo.toml"@) ==> build_commands(files).take(3) == seq![
            "cargo fmt --check"@,
            "cargo test"@,
            "cargo build"@,
        ],
        !crate::verification::has_file(files, "Cargo.toml"@) && !crate::verification::has_file(
            files,
            "package.json"@,
        ) ==> build_commands(files).len() == 0,
{
    let b = build_commands(files);
    let rust = if crate::verification::has_file(files, "Cargo.toml"@) {
        seq!["cargo fmt --check"@, "cargo test"@, "cargo build"@]
    } else {
        Seq::<Seq<char>>::empty()
    };
    let runner = node_runner(files);
    let p = package_text(files);
    if crate::verification::has_file(files, "Cargo.toml"@) {
        assert(b.take(3) =~= rust);
    }
    if crate::verification::has_file(files, "package.json"@) {
        let t = if contains_seq(p, "\"test\""@) { seq![runner + " test"@] } else { Seq::<Seq<char>>::empty() };
        let u = if contains_seq(p, "\"build\""@) { seq![runner + " run build"@] } else { Seq::<Seq<char>>::empty() };
        let v = if contains_seq(p, "\"lint\""@) { seq![runner + " run lint"@] } else { Seq::<Seq<char>>::empty() };
        assert(b == rust + (t + u + v));
        if contains_seq(p, "\"test\""@) {
            assert(b[rust.len() as int] == runner + " test"@);
        }
        if contains_seq(p, "\"build\""@) {
            assert(b[(rust.len() + t.len()) as int] == runner + " run build"@);
        }
        if contains_seq(p, "\"lint\""@) {
            assert(b[(rust.len() + t.len() + u.len()) as int] == runner + " run lint"@);
        }
    }
}

/// The package manager that runs the workspace's Node scripts.
pub fn node_package_manager(files: &crate::verification::WorkspaceFiles) -> (s: &'static str)
    ensures
        s@ == node_runner(*files),
{
    if crate::verification::has_file_exec(files, "pnpm-lock.yaml") {
        "pnpm"
    } else if crate::verification::has_file_exec(files, "yarn.lock") {
        "yarn"
    } else if crate::verification::has_file_exec(files, "bun.lockb")
        || crate::verification::has_file_exec(files, "bun.lock") {
        "bun"
    } else {
        "npm"
    }
}

pub open spec fn package_text(files: crate::verification::WorkspaceFiles) -> Seq<char> {
    match files.package_json_text {
        Some(t) => t@,
        None => seq![],
    }
}

/// The build and test commands the map lists.
pub open spec fn build_commands(files: crate::verification::WorkspaceFiles) -> Seq<Seq<char>> {
    let rust = if crate::verification::has_file(files, "Cargo.toml"@) {
        seq!["cargo fmt --check"@, "cargo test"@, "cargo build"@]
    } else {
        seq![]
    };
    let runner = node_runner(files);
    let p = package_text(files);
    let node = if crate::verification::has_file(files, "package.json"@) {
        (if contains_seq(p, "\"test\""@) { seq![runner + " test"@] } else { seq![] })
            + (if contains_seq(p, "\"build\""@) { seq![runner + " run build"@] } else { seq![] })
            + (if contains_seq(p, "\"lint\""@) { seq![runner + " run lint"@] } else { seq![] })
    } else {
        seq![]
    };
    rust + node
}

fn push_runner_command(out: &mut Vec<String>, on: bool, runner: &str, rest: &str)
    ensures
        string_views(final(out)@) == string_views(old(out)@) + (if on {
            seq![runner@ + rest@]
        } else {
            seq![]
        }),
{
    if on {
        let mut c = owned(runner);
        push_str(&mut c, rest);
        out.push(c);
    }
    assert(string_views(out@) =~= string_views(old(out)@) + (if on {
        seq![runner@ + rest@]
    } else {
        seq![]
    }));
}

fn package_contains(files: &crate::verification::WorkspaceFiles, needle: &str) -> (b: bool)
    ensures
        b == contains_seq(package_text(*files), needle@),
{
    match &files.package_json_text {
        Some(t) => str_contains(t.as_str(), needle),
        None => {
            proof {
                reveal_strlit("");
                assert(""@ =~= Seq::<char>::empty());
            }
            str_contains("", needle)
        },
    }
}

/// The commands that build and test the workspace.
pub fn detect_build_test_commands(files: &crate::verification::WorkspaceFiles) -> (out: Vec<String>)
    ensures
        string_views(out@) == build_commands(*files),
{
    let mut out: Vec<String> = Vec::new();
    assert(string_views(out@) =~= Seq::<Seq<char>>::empty());
    let cargo = crate::verification::has_file_exec(files, "Cargo.toml");
    push_if(&mut out, cargo, "cargo fmt --check");
    push_if(&mut out, cargo, "cargo test");
    push_if(&mut out, cargo, "cargo build");
    if crate::verification::has_file_exec(files, "package.json") {
        let runner = node_package_manager(files);
        push_runner_command(&mut out, package_contains(files, "\"test\""), runner, " test");
        push_runner_command(&mut out, package_contains(files, "\"build\""), runner, " run build");
        push_runner_command(&mut out, package_contains(files, "\"lint\""), runner, " run lint");
    }
    assert(string_views(out@) =~= build_commands(*files));
    out
}

// ---------------------------------------------------------------------------
// Entry points
// ---------------------------------------------------------------------------

/// The string members of an object, with their values.
pub open spec fn string_members(m: Seq<(Seq<char>, Option<Seq<char>>)>) -> Seq<(Seq<char>, Seq<char>)>
    decreases m.len(),
{
    if m.len() == 0 {
        seq![]
    } else {
        let r = string_members(m.drop_last());
        match m.last().1 {
            Some(v) => r.push((m.last().0, v)),
            None => r,
        }
    }
}

/// The fields `names` of a JSON text that hold strings, with their values.
pub open spec fn string_fields(text: Seq<char>, names: Seq<Seq<char>>) -> Seq<(Seq<char>, Seq<char>)>
    decreases names.len(),
{
    if names.len() == 0 {
        seq![]
    } else {
        let r = string_fields(text, names.drop_last());
        match crate::json::json_string_field(text, names.last()) {
            Some(v) => r.push((names.last(), v)),
            None => r,
        }
    }
}

pub open spec fn entry_field_names() -> Seq<Seq<char>> {
    seq!["main"@, "module"@, "browser"@, "bin"@]
}

/// What a `package.json` text names as entry points: the string values of
/// `main`, `module`, `browser` and `bin` (with the field), and the string
/// values of a `bin` object (with their names).
pub open spec fn json_entry_fields(text: Seq<char>) -> (
    Seq<(Seq<char>, Seq<char>)>,
    Seq<(Seq<char>, Seq<char>)>,
) {
    (
        string_fields(text, entry_field_names()),
        match crate::json::json_object_members(text, "bin"@) {
            Some(m) => string_members(m),
            None => seq![],
        },
    )
}

pub open spec fn pair_views(v: Seq<(String, String)>) -> Seq<(Seq<char>, Seq<char>)> {
    v.map_values(|p: (String, String)| (p.0@, p.1@))
}

/// The members of a JSON object whose values are strings, each with its
/// value, in order.
pub fn string_member_pairs(members: &Vec<(String, Option<String>)>) -> (r: Vec<(String, String)>)
    ensures
        pair_views(r@) == string_members(crate::json::member_views(members@)),
{
    let ghost mv = crate::json::member_views(members@);
    let mut bins: Vec<(String, String)> = Vec::new();
    let mut j: usize = 0;
    assert(mv.take(0) =~= Seq::<(Seq<char>, Option<Seq<char>>)>::empty());
    while j < members.len()
        invariant
            j <= members@.len(),
            mv == crate::json::member_views(members@),
            pair_views(bins@) == string_members(mv.take(j as int)),
        decreases members@.len() - j,
    {
        assert(mv.take(j + 1).drop_last() =~= mv.take(j as int));
        assert(mv.take(j + 1).last() == mv[j as int]);
        let ghost before = bins@;
        match &members[j].1 {
            Some(v) => {
                bins.push((owned(members[j].0.as_str()), owned(v.as_str())));
                assert(pair_views(bins@) =~= pair_views(before).push((mv[j as int].0, v@)));
            },
            None => {},
        }
        j += 1;
    }
    assert(mv.take(members@.len() as int) =~= mv);
    bins
}

/// The entry fields of a `package.json` text.
fn package_entry_fields(text: &str) -> (r: (Vec<(String, String)>, Vec<(String, String)>))
    ensures
        (pair_views(r.0@), pair_views(r.1@)) == json_entry_fields(text@),
{
    let names: [&'static str; 4] = ["main", "module", "browser", "bin"];
    proof {
        reveal_strlit("main");
        reveal_strlit("module");
        reveal_strlit("browser");
        reveal_strlit("bin");
    }
    let ghost nv = seq![names[0]@, names[1]@, names[2]@, names[3]@];
    assert(nv =~= entry_field_names());
    let mut fields: Vec<(String, String)> = Vec::new();
    let mut i: usize = 0;
    assert(nv.take(0) =~= Seq::<Seq<char>>::empty());
    while i < 4
        invariant
            i <= 4,
            nv == seq![names[0]@, names[1]@, names[2]@, names[3]@],
            pair_views(fields@) == string_fields(text@, nv.take(i as int)),
        decreases 4 - i,
    {
        assert(nv.take(i + 1).drop_last() =~= nv.take(i as int));
        assert(nv.take(i + 1).last() == names[i as int]@);
        let ghost before = fields@;
        match crate::json::string_field(text, names[i]) {
            Some(v) => {
                fields.push((owned(names[i]), v));
                assert(pair_views(fields@) =~= pair_views(before).push(
                    (names[i as int]@, fields@.last().1@),
                ));
            },
            None => {},
        }
        i += 1;
    }
    assert(nv.take(4) =~= nv);
    let bins = match crate::json::object_members(text, "bin") {
        Some(members) => string_member_pairs(&members),
        None => Vec::new(),
    };
    (fields, bins)
}

pub open spec fn named_entry_candidate(c: Seq<char>) -> bool {
    c == "src/main.rs"@ || c == "main.py"@ || c == "app.py"@ || c == "wsgi.py"@ || c == "asgi.py"@
}

/// A file that is an entry point by its path.
pub open spec fn path_entry(f: Seq<char>) -> bool {
    named_entry_candidate(f) || (starts_with(f, "src/bin/"@) && ends_with(f, ".rs"@)) || ends_with(
        f,
        "/__main__.py"@,
    )
}

/// A Go file declaring `package main`, or a Java file with a `main` method.
pub open spec fn source_entry(rel: Seq<char>, text: Seq<char>) -> bool {
    (ends_with(rel, ".go"@) && exists|i: int|
        0 <= i < crate::text::lines(text).len() && crate::text::trim(#[trigger] crate::text::lines(text)[i])
            == "package main"@) || (ends_with(rel, ".java"@) && contains_seq(
        text,
        "public static void main"@,
    ))
}

pub open spec fn path_entries(files: Seq<Seq<char>>) -> Set<Seq<char>> {
    Set::new(|e: Seq<char>| files.contains(e) && path_entry(e))
}

pub open spec fn field_entry(f: (Seq<char>, Seq<char>)) -> Seq<char> {
    "package.json "@ + f.0 + ": "@ + f.1
}

pub open spec fn bin_entry(b: (Seq<char>, Seq<char>)) -> Seq<char> {
    "package.json bin."@ + b.0 + ": "@ + b.1
}

pub open spec fn field_entries(files: Seq<Seq<char>>, fields: Seq<(Seq<char>, Seq<char>)>) -> Set<Seq<char>> {
    Set::new(
        |e: Seq<char>|
            exists|i: int|
                0 <= i < fields.len() && files.contains(fields[i].1) && e == #[trigger] field_entry(
                    fields[i],
                ),
    )
}

pub open spec fn bin_entries(files: Seq<Seq<char>>, bins: Seq<(Seq<char>, Seq<char>)>) -> Set<Seq<char>> {
    Set::new(
        |e: Seq<char>|
            exists|i: int|
                0 <= i < bins.len() && files.contains(bins[i].1) && e == #[trigger] bin_entry(bins[i]),
    )
}

pub open spec fn source_entries(sources: Seq<(Seq<char>, Seq<char>)>) -> Set<Seq<char>> {
    Set::new(
        |e: Seq<char>|
            exists|i: int| 0 <= i < sources.len() && #[trigger] sources[i].0 == e && source_entry(sources[i].0, sources[i].1),
    )
}

/// Every entry point: files by their path, `package.json` entries whose
/// path is a file, and Go and Java programs by their source.
pub open spec fn entry_candidates(
    files: Seq<Seq<char>>,
    package: Option<Seq<char>>,
    sources: Seq<(Seq<char>, Seq<char>)>,
) -> Set<Seq<char>> {
    let p = match package {
        Some(t) => field_entries(files, json_entry_fields(t).0) + bin_entries(
            files,
            json_entry_fields(t).1,
        ),
        None => Set::empty(),
    };
    path_entries(files) + p + source_entries(sources)
}

fn strings_contain(v: &[String], s: &str) -> (b: bool)
    ensures
        b == string_views(v@).contains(s@),
{
    let ghost sv = string_views(v@);
    let mut i: usize = 0;
    while i < v.len()
        invariant
            i <= v@.len(),
            sv == string_views(v@),
            forall|k: int| 0 <= k < i ==> sv[k] != s@,
        decreases v@.len() - i,
    {
        if crate::text::str_eq(v[i].as_str(), s) {
            assert(sv[i as int] == s@);
            return true;
        }
        i += 1;
    }
    false
}

fn is_path_entry(f: &str) -> (b: bool)
    ensures
        b == path_entry(f@),
{
    let v = chars_of(f);
    eq_lit(v.as_slice(), "src/main.rs") || eq_lit(v.as_slice(), "main.py") || eq_lit(v.as_slice(), "app.py")
        || eq_lit(v.as_slice(), "wsgi.py") || eq_lit(v.as_slice(), "asgi.py") || (
    crate::text::starts_with_chars(v.as_slice(), chars_of("src/bin/").as_slice())
        && crate::text::ends_with_chars(v.as_slice(), chars_of(".rs").as_slice()))
        || crate::text::ends_with_chars(v.as_slice(), chars_of("/__main__.py").as_slice())
}

fn is_source_entry(rel: &str, text: &str) -> (b: bool)
    ensures
        b == source_entry(rel@, text@),
{
    if crate::text::str_ends_with(rel, ".go") {
        let ls = crate::text::lines_of(chars_of(text).as_slice());
        let ghost all = ls@.map_values(|l: Vec<char>| l@);
        let target = chars_of("package main");
        let mut i: usize = 0;
        while i < ls.len()
            invariant
                i <= ls@.len(),
                all == ls@.map_values(|l: Vec<char>| l@),
                all == crate::text::lines(text@),
                target@ == "package main"@,
                ends_with(rel@, ".go"@),
                forall|k: int| 0 <= k < i ==> crate::text::trim(#[trigger] all[k]) != "package main"@,
            decreases ls@.len() - i,
        {
            let t = crate::text::trim_chars(ls[i].as_slice());
            assert(all[i as int] == ls@[i as int]@);
            if crate::text::chars_eq(t.as_slice(), target.as_slice()) {
                assert(crate::text::trim(all[i as int]) == "package main"@);
                return true;
            }
            i += 1;
        }
    }
    crate::text::str_ends_with(rel, ".java") && str_contains(text, "public static void main")
}

pub open spec fn opt_str(p: Option<&str>) -> Option<Seq<char>> {
    match p {
        Some(t) => Some(t@),
        None => None,
    }
}

fn insert_entry(acc: &mut Vec<String>, e: String)
    requires
        ascending(string_views(old(acc)@)),
    ensures
        ascending(string_views(final(acc)@)),
        string_views(final(acc)@).to_set() == string_views(old(acc)@).to_set().insert(e@),
{
    insert_sorted(acc, e);
}

/// The entry points of a workspace, in ascending order, at most 24:
/// `files` are its relative file paths, `package_json_text` the text of its
/// `package.json`, `sources` its Go and Java files with their text.
pub fn detect_entry_points(
    files: &[String],
    package_json_text: Option<&str>,
    sources: &[(String, String)],
) -> (out: Vec<String>)
    ensures
        exists|s: Seq<Seq<char>>|
            ascending(s) && s.to_set() == entry_candidates(
                string_views(files@),
                opt_str(package_json_text),
                pair_views(sources@),
            ) && string_views(out@) == s.take(
                if s.len() > MAX_ENTRY_POINTS {
                    MAX_ENTRY_POINTS as int
                } else {
                    s.len() as int
                },
            ),
{
    let ghost fv = string_views(files@);
    let mut acc: Vec<String> = Vec::new();
    assert(string_views(acc@).to_set() =~= path_entries(fv.take(0)));
    let mut i: usize = 0;
    while i < files.len()
        invariant
            i <= files@.len(),
            fv == string_views(files@),
            ascending(string_views(acc@)),
            string_views(acc@).to_set() == path_entries(fv.take(i as int)),
        decreases files@.len() - i,
    {
        let ghost before = string_views(acc@).to_set();
        if is_path_entry(files[i].as_str()) {
            insert_entry(&mut acc, owned(files[i].as_str()));
        }
        proof {
            assert(fv[i as int] == files@[i as int]@);
            let a = fv.take(i as int);
            let b = fv.take(i + 1);
            assert(b =~= a.push(fv[i as int]));
            assert forall|e: Seq<char>| #[trigger] b.contains(e) == (a.contains(e) || e == fv[i as int]) by {
                if b.contains(e) && e != fv[i as int] {
                    let k = choose|k: int| 0 <= k < b.len() && #[trigger] b[k] == e;
                    assert(a[k] == e);
                }
                if a.contains(e) {
                    let k = choose|k: int| 0 <= k < a.len() && #[trigger] a[k] == e;
                    assert(b[k] == e);
                }
                if e == fv[i as int] {
                    assert(b[i as int] == e);
                }
            }
            assert(string_views(acc@).to_set() =~= path_entries(fv.take(i + 1)));
        }
        i += 1;
    }
    assert(fv.take(files@.len() as int) =~= fv);
    let ghost after_paths = string_views(acc@).to_set();
    let ghost pkg: Set<Seq<char>> = Set::empty();
    match package_json_text {
        Some(text) => {
            let (fields, bins) = package_entry_fields(text);
            {
                let ghost flv = pair_views(fields@);
                let ghost blv = pair_views(bins@);
                let mut j: usize = 0;
                assert(string_views(acc@).to_set() =~= after_paths + field_entries(fv, flv.take(0)));
                while j < fields.len()
                    invariant
                        j <= fields@.len(),
                        flv == pair_views(fields@),
                        fv == string_views(files@),
                        ascending(string_views(acc@)),
                        string_views(acc@).to_set() == after_paths + field_entries(fv, flv.take(j as int)),
                    decreases fields@.len() - j,
                {
                    assert(flv[j as int] == (fields@[j as int].0@, fields@[j as int].1@));
                    if strings_contain(files, fields[j].1.as_str()) {
                        let mut e = owned("package.json ");
                        push_str(&mut e, fields[j].0.as_str());
                        push_str(&mut e, ": ");
                        push_str(&mut e, fields[j].1.as_str());
                        proof {
                            reveal_strlit("package.json ");
                            reveal_strlit(": ");
                            assert(e@ == field_entry(flv[j as int]));
                        }
                        insert_entry(&mut acc, e);
                    }
                    proof {
                        let a = flv.take(j as int);
                        let b = flv.take(j + 1);
                        assert forall|x: Seq<char>| #[trigger] field_entries(fv, b).contains(x) == (
                        field_entries(fv, a).contains(x) || (fv.contains(flv[j as int].1) && x
                            == field_entry(flv[j as int]))) by {
                            if field_entries(fv, b).contains(x) {
                                let k = choose|k: int| 0 <= k < b.len() && fv.contains(b[k].1) && x == #[trigger] field_entry(b[k]);
                                if k < j {
                                    assert(a[k] == b[k]);
                                }
                            }
                            if field_entries(fv, a).contains(x) {
                                let k = choose|k: int| 0 <= k < a.len() && fv.contains(a[k].1) && x == #[trigger] field_entry(a[k]);
                                assert(a[k] == b[k]);
                            }
                            if fv.contains(flv[j as int].1) && x == field_entry(flv[j as int]) {
                                assert(b[j as int] == flv[j as int]);
                            }
                        }
                        assert(string_views(acc@).to_set() =~= after_paths + field_entries(fv, b));
                    }
                    j += 1;
                }
                assert(flv.take(fields@.len() as int) =~= flv);
                let ghost after_fields = string_views(acc@).to_set();
                let mut j: usize = 0;
                assert(string_views(acc@).to_set() =~= after_fields + bin_entries(fv, blv.take(0)));
                while j < bins.len()
                    invariant
                        j <= bins@.len(),
                        blv == pair_views(bins@),
                        fv == string_views(files@),
                        ascending(string_views(acc@)),
                        string_views(acc@).to_set() == after_fields + bin_entries(fv, blv.take(j as int)),
                    decreases bins@.len() - j,
                {
                    assert(blv[j as int] == (bins@[j as int].0@, bins@[j as int].1@));
                    if strings_contain(files, bins[j].1.as_str()) {
                        let mut e = owned("package.json bin.");
                        push_str(&mut e, bins[j].0.as_str());
                        push_str(&mut e, ": ");
                        push_str(&mut e, bins[j].1.as_str());
                        proof {
                            reveal_strlit("package.json bin.");
                            reveal_strlit(": ");
                            assert(e@ == bin_entry(blv[j as int]));
                        }
                        insert_entry(&mut acc, e);
                    }
                    proof {
                        let a = blv.take(j as int);
                        let b = blv.take(j + 1);
                        assert forall|x: Seq<char>| #[trigger] bin_entries(fv, b).contains(x) == (
                        bin_entries(fv, a).contains(x) || (fv.contains(blv[j as int].1) && x
                            == bin_entry(blv[j as int]))) by {
                            if bin_entries(fv, b).contains(x) {
                                let k = choose|k: int| 0 <= k < b.len() && fv.contains(b[k].1) && x == #[trigger] bin_entry(b[k]);
                                if k < j {
                                    assert(a[k] == b[k]);
                                }
                            }
                            if bin_entries(fv, a).contains(x) {
                                let k = choose|k: int| 0 <= k < a.len() && fv.contains(a[k].1) && x == #[trigger] bin_entry(a[k]);
                                assert(a[k] == b[k]);
                            }
                            if fv.contains(blv[j as int].1) && x == bin_entry(blv[j as int]) {
                                assert(b[j as int] == blv[j as int]);
                            }
                        }
                        assert(string_views(acc@).to_set() =~= after_fields + bin_entries(fv, b));
                    }
                    j += 1;
                }
                assert(blv.take(bins@.len() as int) =~= blv);
                proof {
                    pkg = field_entries(fv, flv) + bin_entries(fv, blv);
                    assert(string_views(acc@).to_set() =~= after_paths + pkg);
                }
            }
        },
        None => {
            assert(string_views(acc@).to_set() =~= after_paths + pkg);
        },
    }
    let ghost after_pkg = string_views(acc@).to_set();
    let ghost sv = pair_views(sources@);
    let mut k: usize = 0;
    assert(string_views(acc@).to_set() =~= after_pkg + source_entries(sv.take(0)));
    while k < sources.len()
        invariant
            k <= sources@.len(),
            sv == pair_views(sources@),
            ascending(string_views(acc@)),
            string_views(acc@).to_set() == after_pkg + source_entries(sv.take(k as int)),
        decreases sources@.len() - k,
    {
        assert(sv[k as int] == (sources@[k as int].0@, sources@[k as int].1@));
        if is_source_entry(sources[k].0.as_str(), sources[k].1.as_str()) {
            insert_entry(&mut acc, owned(sources[k].0.as_str()));
        }
        proof {
            let a = sv.take(k as int);
            let b = sv.take(k + 1);
            assert forall|x: Seq<char>| #[trigger] source_entries(b).contains(x) == (source_entries(a).contains(x) || (
            sv[k as int].0 == x && source_entry(sv[k as int].0, sv[k as int].1))) by {
                if source_entries(b).contains(x) {
                    let m = choose|m: int| 0 <= m < b.len() && #[trigger] b[m].0 == x && source_entry(b[m].0, b[m].1);
                    if m < k {
                        assert(a[m] == b[m]);
                    }
                }
                if source_entries(a).contains(x) {
                    let m = choose|m: int| 0 <= m < a.len() && #[trigger] a[m].0 == x && source_entry(a[m].0, a[m].1);
                    assert(a[m] == b[m]);
                }
                if sv[k as int].0 == x && source_entry(sv[k as int].0, sv[k as int].1) {
                    assert(b[k as int] == sv[k as int]);
                }
            }
            assert(string_views(acc@).to_set() =~= after_pkg + source_entries(b));
        }
        k += 1;
    }
    assert(sv.take(sources@.len() as int) =~= sv);
    assert(string_views(acc@).to_set() =~= entry_candidates(fv, opt_str(package_json_text), sv));
    let ghost s = string_views(acc@);
    if acc.len() > MAX_ENTRY_POINTS {
        acc.truncate(MAX_ENTRY_POINTS);
    }
    assert(string_views(acc@) =~= s.take(
        if s.len() > MAX_ENTRY_POINTS {
            MAX_ENTRY_POINTS as int
        } else {
            s.len() as int
        },
    ));
    acc
}

// ---------------------------------------------------------------------------
// The map
// ---------------------------------------------------------------------------

pub struct RepoMapOutput {
    pub path: String,
    pub languages: Vec<String>,
    pub frameworks: Vec<String>,
    pub important_folders: Vec<String>,
    pub entry_points: Vec<String>,
    pub build_test_commands: Vec<String>,
    pub files_scanned: usize,
    pub truncated: bool,
    pub text: String,
}

/// A bullet per item, or `- None detected.`.
pub open spec fn list_md(items: Seq<Seq<char>>) -> Seq<char> {
    if items.len() == 0 {
        "- None detected.\n"@
    } else {
        bullets(items)
    }
}

pub fn markdown_list(items: &[String]) -> (s: String)
    ensures
        s@ == list_md(string_views(items@)),
{
    if items.len() == 0 {
        proof {
            reveal_strlit("- None detected.\n");
        }
        return owned("- None detected.\n");
    }
    let mut out = String::new();
    crate::text::push_bullets(&mut out, items);
    assert(out@ =~= bullets(string_views(items@)));
    out
}

/// The ignored directories, joined with `, `.
pub open spec fn ignored_list() -> Seq<char> {
    ".git, .hg, .svn, .idea, .vscode, .catdesk, .venv, venv, target, node_modules, dist, build, coverage, .next, .nuxt, .svelte-kit, vendor, vendors, __pycache__, .pytest_cache, .mypy_cache, .ruff_cache, review-bundles, npm/bin"@
}

pub open spec fn bool_text(b: bool) -> Seq<char> {
    if b {
        "true"@
    } else {
        "false"@
    }
}

/// The Markdown of the map: one section per finding, then scan notes.
pub open spec fn map_md(o: RepoMapOutput) -> Seq<char> {
    "# Repository Map\n\n## Languages\n\n"@ + list_md(string_views(o.languages@))
        + "\n## Frameworks\n\n"@ + list_md(string_views(o.frameworks@))
        + "\n## Important folders\n\n"@ + list_md(string_views(o.important_folders@))
        + "\n## Entry points\n\n"@ + list_md(string_views(o.entry_points@))
        + "\n## Build/test commands\n\n"@ + list_md(string_views(o.build_test_commands@))
        + "\n## Scan notes\n\n- Files scanned: "@ + decimal(o.files_scanned as nat)
        + "\n- Truncated: "@ + bool_text(o.truncated)
        + "\n- Ignored generated/vendor directories: "@ + ignored_list() + "\n"@
}

/// The Markdown written to `.catdesk/repo_map.md`.
pub fn repo_map_text(o: &RepoMapOutput) -> (s: String)
    ensures
        s@ == map_md(*o),
{
    let mut out = owned("# Repository Map\n\n## Languages\n\n");
    push_str(&mut out, markdown_list(o.languages.as_slice()).as_str());
    push_str(&mut out, "\n## Frameworks\n\n");
    push_str(&mut out, markdown_list(o.frameworks.as_slice()).as_str());
    push_str(&mut out, "\n## Important folders\n\n");
    push_str(&mut out, markdown_list(o.important_folders.as_slice()).as_str());
    push_str(&mut out, "\n## Entry points\n\n");
    push_str(&mut out, markdown_list(o.entry_points.as_slice()).as_str());
    push_str(&mut out, "\n## Build/test commands\n\n");
    push_str(&mut out, markdown_list(o.build_test_commands.as_slice()).as_str());
    push_str(&mut out, "\n## Scan notes\n\n- Files scanned: ");
    push_str(&mut out, decimal_u64(o.files_scanned as u64).as_str());
    push_str(&mut out, "\n- Truncated: ");
    push_str(&mut out, if o.truncated { "true" } else { "false" });
    push_str(&mut out, "\n- Ignored generated/vendor directories: ");
    push_str(
        &mut out,
        ".git, .hg, .svn, .idea, .vscode, .catdesk, .venv, venv, target, node_modules, dist, build, coverage, .next, .nuxt, .svelte-kit, vendor, vendors, __pycache__, .pytest_cache, .mypy_cache, .ruff_cache, review-bundles, npm/bin",
    );
    push_str(&mut out, "\n");
    out
}

impl RepoMapOutput {
    /// Where the map was written, the scan size, whether it stopped early,
    /// then the map.
    pub fn render_text(&self) -> (s: String)
        ensures
            s@ == "wrote: "@ + self.path@ + "\nfiles scanned: "@ + decimal(self.files_scanned as nat)
                + "\ntruncated: "@ + bool_text(self.truncated) + "\n\n"@ + self.text@,
    {
        let mut out = owned("wrote: ");
        push_str(&mut out, self.path.as_str());
        push_str(&mut out, "\nfiles scanned: ");
        push_str(&mut out, decimal_u64(self.files_scanned as u64).as_str());
        push_str(&mut out, "\ntruncated: ");
        push_str(&mut out, if self.truncated { "true" } else { "false" });
        push_str(&mut out, "\n\n");
        push_str(&mut out, self.text.as_str());
        proof {
            reveal_strlit("true");
            reveal_strlit("false");
        }
        out
    }
}

/// The map of a scan: the findings and their Markdown.
pub fn repo_map_output(
    path: String,
    languages: Vec<String>,
    frameworks: Vec<String>,
    important_folders: Vec<String>,
    entry_points: Vec<String>,
    build_test_commands: Vec<String>,
    files_scanned: usize,
    truncated: bool,
) -> (o: RepoMapOutput)
    ensures
        o.path == path,
        o.languages == languages,
        o.frameworks == frameworks,
        o.important_folders == important_folders,
        o.entry_points == entry_points,
        o.build_test_commands == build_test_commands,
        o.files_scanned == files_scanned,
        o.truncated == truncated,
        o.text@ == map_md(o),
{
    let mut o = RepoMapOutput {
        path,
        languages,
        frameworks,
        important_folders,
        entry_points,
        build_test_commands,
        files_scanned,
        truncated,
        text: String::new(),
    };
    o.text = repo_map_text(&o);
    o
}

} // verus!
