//! Which checks a workspace can run (Rust, Node, Python), and how their
//! results are summed up.
use vstd::prelude::*;
use crate::text::string_views;
use crate::number::{decimal, decimal_int, decimal_i64, decimal_u64};
use crate::text::{chars_of, contains_seq, ends_with, push_str, str_contains, str_ends_with, string_of};

verus! {

/// Timeout of a check, in milliseconds.
pub const DEFAULT_VERIFY_TIMEOUT_MS: u64 = 120000;

/// Lines of output kept per check.
pub const MAX_SUMMARY_LINES: usize = 18;

pub struct VerificationCommand {
    pub ecosystem: String,
    pub command: String,
    pub executable: String,
    pub args: Vec<String>,
}

/// A command as values: ecosystem, command line, executable, arguments.
pub type CommandV = (Seq<char>, Seq<char>, Seq<char>, Seq<Seq<char>>);

impl View for VerificationCommand {
    type V = CommandV;

    open spec fn view(&self) -> CommandV {
        (self.ecosystem@, self.command@, self.executable@, string_views(self.args@))
    }
}

pub open spec fn command_views(v: Seq<VerificationCommand>) -> Seq<CommandV> {
    v.map_values(|c: VerificationCommand| c@)
}

pub struct VerificationResult {
    pub ecosystem: String,
    pub command: String,
    pub status: String,
    pub success: bool,
    pub exit_code: Option<i32>,
    pub elapsed_ms: u64,
    pub summary: Vec<String>,
}

pub struct VerifyProjectOutput {
    pub success: bool,
    pub status: String,
    pub commands: Vec<VerificationResult>,
    pub skipped: Vec<String>,
}

/// What the plan reads of a workspace: the entries at its root (name, and
/// whether it is a regular file), and the text of `package.json` and of
/// `pyproject.toml` where they could be read.
pub struct WorkspaceFiles {
    pub entries: Vec<(String, bool)>,
    pub package_json_text: Option<String>,
    pub pyproject_text: Option<String>,
}

/// `name` is a regular file at the root.
pub open spec fn has_file(files: WorkspaceFiles, name: Seq<char>) -> bool {
    exists|i: int|
        0 <= i < files.entries@.len() && (#[trigger] files.entries@[i]).0@ == name && files.entries@[i].1
}

/// `Path::extension` of an entry name is `py`: it ends with `.py` after
/// at least one character.
pub open spec fn is_py_name(name: Seq<char>) -> bool {
    name.len() > 3 && ends_with(name, ".py"@)
}

// ---------------------------------------------------------------------------
// package.json
// ---------------------------------------------------------------------------

/// The keys of the `scripts` object of a `package.json` text, when the text
/// is JSON with such an object.
pub open spec fn json_script_names(text: Seq<char>) -> Option<Seq<Seq<char>>> {
    match crate::json::json_object_members(text, "scripts"@) {
        Some(m) => Some(m.map_values(|e: (Seq<char>, Option<Seq<char>>)| e.0)),
        None => None,
    }
}

/// The names of the `scripts` of a `package.json` text.
fn package_json_script_names(text: &str) -> (r: Option<Vec<String>>)
    ensures
        match r {
            Some(v) => json_script_names(text@) == Some(string_views(v@)),
            None => json_script_names(text@) is None,
        },
{
    proof {
        reveal_strlit("scripts");
    }
    match crate::json::object_members(text, "scripts") {
        None => None,
        Some(members) => Some(member_names(&members)),
    }
}

/// The names of the members of a JSON object, in order.
pub fn member_names(members: &Vec<(String, Option<String>)>) -> (names: Vec<String>)
    ensures
        string_views(names@) == crate::json::member_views(members@).map_values(
            |e: (Seq<char>, Option<Seq<char>>)| e.0,
        ),
{
    let ghost mv = crate::json::member_views(members@);
    let mut names: Vec<String> = Vec::new();
    let mut i: usize = 0;
    while i < members.len()
        invariant
            i <= members@.len(),
            mv == crate::json::member_views(members@),
            string_views(names@) == mv.take(i as int).map_values(
                |e: (Seq<char>, Option<Seq<char>>)| e.0,
            ),
        decreases members@.len() - i,
    {
        let ghost before = names@;
        names.push(owned(members[i].0.as_str()));
        assert(string_views(names@) =~= string_views(before).push(mv[i as int].0));
        assert(mv.take(i + 1) =~= mv.take(i as int).push(mv[i as int]));
        i += 1;
    }
    assert(mv.take(members@.len() as int) =~= mv);
    names
}

/// `package.json` was read, is JSON, and its `scripts` object has `script`.
pub open spec fn script_exists(files: WorkspaceFiles, script: Seq<char>) -> bool {
    match files.package_json_text {
        Some(t) => match json_script_names(t@) {
            Some(names) => names.contains(script),
            None => false,
        },
        None => false,
    }
}

/// Whether the `scripts` of `package.json` include `script`.
pub fn package_script_exists(files: &WorkspaceFiles, script: &str) -> (b: bool)
    ensures
        b == script_exists(*files, script@),
{
    match &files.package_json_text {
        None => false,
        Some(text) => match package_json_script_names(text.as_str()) {
            None => false,
            Some(names) => {
                let ghost nv = string_views(names@);
                let s = chars_of(script);
                let mut i: usize = 0;
                while i < names.len()
                    invariant
                        i <= names@.len(),
                        nv == string_views(names@),
                        s@ == script@,
                        files.package_json_text == Some(*text),
                        json_script_names(text@) == Some(nv),
                        forall|k: int| 0 <= k < i ==> nv[k] != script@,
                    decreases names@.len() - i,
                {
                    if crate::text::chars_eq(chars_of(names[i].as_str()).as_slice(), s.as_slice()) {
                        assert(nv[i as int] == script@);
                        assert(nv.contains(script@));
                        assert(files.package_json_text == Some(*text));
                        assert(json_script_names(text@) == Some(nv));
                        return true;
                    }
                    i += 1;
                }
                false
            },
        },
    }
}

// ---------------------------------------------------------------------------
// Detection
// ---------------------------------------------------------------------------

pub fn has_file_exec(files: &WorkspaceFiles, name: &str) -> (b: bool)
    ensures
        b == has_file(*files, name@),
{
    let n = chars_of(name);
    let mut i: usize = 0;
    while i < files.entries.len()
        invariant
            i <= files.entries@.len(),
            n@ == name@,
            forall|k: int| 0 <= k < i ==> !((#[trigger] files.entries@[k]).0@ == name@ && files.entries@[k].1),
        decreases files.entries@.len() - i,
    {
        if files.entries[i].1 && crate::text::chars_eq(
            chars_of(files.entries[i].0.as_str()).as_slice(),
            n.as_slice(),
        ) {
            return true;
        }
        i += 1;
    }
    false
}

/// The lock file that decides the Node package manager, first match in
/// order; `package.json` alone means npm.
pub open spec fn package_manager(files: WorkspaceFiles) -> Option<(Seq<char>, Seq<char>)> {
    if has_file(files, "pnpm-lock.yaml"@) {
        Some(("pnpm-lock.yaml"@, "pnpm"@))
    } else if has_file(files, "yarn.lock"@) {
        Some(("yarn.lock"@, "yarn"@))
    } else if has_file(files, "bun.lock"@) {
        Some(("bun.lock"@, "bun"@))
    } else if has_file(files, "bun.lockb"@) {
        Some(("bun.lockb"@, "bun"@))
    } else if has_file(files, "package-lock.json"@) {
        Some(("package-lock.json"@, "npm"@))
    } else if has_file(files, "package.json"@) {
        Some(("package.json"@, "npm"@))
    } else {
        None
    }
}

/// The lock file and the package manager of a Node project.
pub fn node_package_manager(files: &WorkspaceFiles) -> (r: Option<(&'static str, &'static str)>)
    ensures
        match r {
            Some((l, m)) => package_manager(*files) == Some((l@, m@)),
            None => package_manager(*files) is None,
        },
{
    if has_file_exec(files, "pnpm-lock.yaml") {
        Some(("pnpm-lock.yaml", "pnpm"))
    } else if has_file_exec(files, "yarn.lock") {
        Some(("yarn.lock", "yarn"))
    } else if has_file_exec(files, "bun.lock") {
        Some(("bun.lock", "bun"))
    } else if has_file_exec(files, "bun.lockb") {
        Some(("bun.lockb", "bun"))
    } else if has_file_exec(files, "package-lock.json") {
        Some(("package-lock.json", "npm"))
    } else if has_file_exec(files, "package.json") {
        Some(("package.json", "npm"))
    } else {
        None
    }
}

pub open spec fn python_detected(files: WorkspaceFiles) -> bool {
    has_file(files, "pyproject.toml"@) || has_file(files, "setup.py"@) || has_file(
        files,
        "requirements.txt"@,
    ) || exists|i: int|
        0 <= i < files.entries@.len() && is_py_name(#[trigger] files.entries@[i].0@)
}

/// A Python project: `pyproject.toml`, `setup.py` or `requirements.txt`,
/// or an entry with the `py` extension at the root.
pub fn python_project_detected(files: &WorkspaceFiles) -> (b: bool)
    ensures
        b == python_detected(*files),
{
    if has_file_exec(files, "pyproject.toml") || has_file_exec(files, "setup.py")
        || has_file_exec(files, "requirements.txt") {
        return true;
    }
    let py = chars_of(".py");
    proof {
        reveal_strlit(".py");
    }
    let mut i: usize = 0;
    while i < files.entries.len()
        invariant
            i <= files.entries@.len(),
            py@ == ".py"@,
            forall|k: int| 0 <= k < i ==> !is_py_name(#[trigger] files.entries@[k].0@),
        decreases files.entries@.len() - i,
    {
        let name = chars_of(files.entries[i].0.as_str());
        if name.len() > 3 && crate::text::ends_with_chars(name.as_slice(), py.as_slice()) {
            return true;
        }
        i += 1;
    }
    false
}

/// The text of `pyproject.toml`, empty where it could not be read.
pub open spec fn pyproject(files: WorkspaceFiles) -> Seq<char> {
    match files.pyproject_text {
        Some(t) => t@,
        None => seq![],
    }
}

fn pyproject_mentions(files: &WorkspaceFiles, section: &str) -> (b: bool)
    ensures
        b == contains_seq(pyproject(*files), section@),
{
    match &files.pyproject_text {
        Some(t) => {
            assert(files.pyproject_text == Some(*t));
            assert(pyproject(*files) == t@);
            str_contains(t.as_str(), section)
        },
        None => {
            proof {
                reveal_strlit("");
                assert(""@ =~= Seq::<char>::empty());
            }
            str_contains("", section)
        },
    }
}

pub open spec fn pytest_on(files: WorkspaceFiles) -> bool {
    has_file(files, "pytest.ini"@) || contains_seq(pyproject(files), "[tool.pytest"@)
}

pub open spec fn ruff_on(files: WorkspaceFiles) -> bool {
    has_file(files, "ruff.toml"@) || contains_seq(pyproject(files), "[tool.ruff"@)
}

pub open spec fn mypy_on(files: WorkspaceFiles) -> bool {
    has_file(files, "mypy.ini"@) || contains_seq(pyproject(files), "[tool.mypy"@)
}

/// `pytest.ini`, or a `[tool.pytest` section in `pyproject.toml`.
pub fn pytest_configured(files: &WorkspaceFiles) -> (b: bool)
    ensures
        b == pytest_on(*files),
{
    has_file_exec(files, "pytest.ini") || pyproject_mentions(files, "[tool.pytest")
}

/// `ruff.toml`, or a `[tool.ruff` section in `pyproject.toml`.
pub fn ruff_configured(files: &WorkspaceFiles) -> (b: bool)
    ensures
        b == ruff_on(*files),
{
    has_file_exec(files, "ruff.toml") || pyproject_mentions(files, "[tool.ruff")
}

/// `mypy.ini`, or a `[tool.mypy` section in `pyproject.toml`.
pub fn mypy_configured(files: &WorkspaceFiles) -> (b: bool)
    ensures
        b == mypy_on(*files),
{
    has_file_exec(files, "mypy.ini") || pyproject_mentions(files, "[tool.mypy")
}

// ---------------------------------------------------------------------------
// The plan
// ---------------------------------------------------------------------------

pub open spec fn node_args(manager: Seq<char>, script: Seq<char>) -> Seq<Seq<char>> {
    if manager == "yarn"@ {
        seq![script]
    } else {
        seq!["run"@, script]
    }
}

/// `{manager} run {script}`, or `yarn {script}`.
pub open spec fn node_command(manager: Seq<char>, script: Seq<char>) -> CommandV {
    let line = if manager == "yarn"@ {
        manager + " "@ + script
    } else {
        manager + " run "@ + script
    };
    ("Node"@, line, manager, node_args(manager, script))
}

fn owned(s: &str) -> (r: String)
    ensures
        r@ == s@,
{
    s.to_owned()
}

/// The command that runs a `package.json` script with `manager`.
pub fn node_script_command(manager: &str, script: &str) -> (c: VerificationCommand)
    ensures
        c@ == node_command(manager@, script@),
{
    let yarn = crate::text::str_eq(manager, "yarn");
    let mut args: Vec<String> = Vec::new();
    let mut command = owned(manager);
    if yarn {
        args.push(owned(script));
        push_str(&mut command, " ");
    } else {
        args.push(owned("run"));
        args.push(owned(script));
        push_str(&mut command, " run ");
    }
    push_str(&mut command, script);
    proof {
        reveal_strlit("yarn");
        reveal_strlit("run");
        reveal_strlit(" ");
        reveal_strlit(" run ");
        reveal_strlit("Node");
        assert(string_views(args@) =~= node_args(manager@, script@));
    }
    VerificationCommand { ecosystem: owned("Node"), command, executable: owned(manager), args }
}

pub open spec fn rust_plan(files: WorkspaceFiles) -> (Seq<CommandV>, Seq<Seq<char>>) {
    if has_file(files, "Cargo.toml"@) {
        (
            seq![
                ("Rust"@, "cargo fmt --check"@, "cargo"@, seq!["fmt"@, "--check"@]),
                ("Rust"@, "cargo test"@, "cargo"@, seq!["test"@]),
                ("Rust"@, "cargo build"@, "cargo"@, seq!["build"@]),
            ],
            seq![],
        )
    } else {
        (seq![], seq!["Rust: Cargo.toml not found"@])
    }
}

pub open spec fn node_step(files: WorkspaceFiles, manager: Seq<char>, script: Seq<char>) -> (
    Seq<CommandV>,
    Seq<Seq<char>>,
) {
    if script_exists(files, script) {
        (seq![node_command(manager, script)], seq![])
    } else {
        (seq![], seq!["Node: package.json has no `"@ + script + "` script"@])
    }
}

pub open spec fn node_plan(files: WorkspaceFiles) -> (Seq<CommandV>, Seq<Seq<char>>) {
    if has_file(files, "package.json"@) {
        let m = package_manager(files)->Some_0.1;
        let a = node_step(files, m, "test"@);
        let b = node_step(files, m, "build"@);
        let c = node_step(files, m, "lint"@);
        (a.0 + b.0 + c.0, a.1 + b.1 + c.1)
    } else {
        (seq![], seq!["Node: package.json not found"@])
    }
}

pub open spec fn python_step(on: bool, c: CommandV, skip: Seq<char>) -> (Seq<CommandV>, Seq<Seq<char>>) {
    if on {
        (seq![c], seq![])
    } else {
        (seq![], seq![skip])
    }
}

pub open spec fn python_plan(files: WorkspaceFiles) -> (Seq<CommandV>, Seq<Seq<char>>) {
    if python_detected(files) {
        let a = python_step(
            pytest_on(files),
            ("Python"@, "pytest"@, "pytest"@, seq![]),
            "Python: pytest not configured"@,
        );
        let b = python_step(
            ruff_on(files),
            ("Python"@, "ruff check ."@, "ruff"@, seq!["check"@, "."@]),
            "Python: ruff not configured"@,
        );
        let c = python_step(
            mypy_on(files),
            ("Python"@, "mypy ."@, "mypy"@, seq!["."@]),
            "Python: mypy not configured"@,
        );
        (a.0 + b.0 + c.0, a.1 + b.1 + c.1)
    } else {
        (seq![], seq!["Python: no Python project files found"@])
    }
}

/// The checks to run and the reasons for those skipped: Rust, then Node,
/// then Python.
pub open spec fn plan(files: WorkspaceFiles) -> (Seq<CommandV>, Seq<Seq<char>>) {
    let r = rust_plan(files);
    let n = node_plan(files);
    let p = python_plan(files);
    (r.0 + n.0 + p.0, r.1 + n.1 + p.1)
}

/// The lock file decides the Node package manager: pnpm's first, then
/// yarn's, then bun's, then npm's; `package.json` alone means npm.
pub proof fn lemma_package_manager_by_lock(files: WorkspaceFiles)
    ensures
        has_file(files, "pnpm-lock.yaml"@) ==> package_manager(files) == Some(("pnpm-lock.yaml"@, "pnpm"@)),
        !has_file(files, "pnpm-lock.yaml"@) && has_file(files, "yarn.lock"@) ==> package_manager(files)
            == Some(("yarn.lock"@, "yarn"@)),
        !has_file(files, "pnpm-lock.yaml"@) && !has_file(files, "yarn.lock"@) && (has_file(files, "bun.lock"@)
            || has_file(files, "bun.lockb"@)) ==> package_manager(files)->Some_0.1 == "bun"@,
        !has_file(files, "pnpm-lock.yaml"@) && !has_file(files, "yarn.lock"@) && !has_file(files, "bun.lock"@)
            && !has_file(files, "bun.lockb"@) && (has_file(files, "package-lock.json"@) || has_file(
            files,
            "package.json"@,
        )) ==> package_manager(files)->Some_0.1 == "npm"@,
        has_file(files, "package.json"@) ==> package_manager(files) is Some,
{
}

/// Every command the Rust and Node parts of the plan hold is for another
/// ecosystem than Python, and every reason they skip starts with `R` or
/// `N`.
proof fn lemma_plan_before_python(files: WorkspaceFiles)
    ensures
        forall|k: int|
            0 <= k < (rust_plan(files).0 + node_plan(files).0).len() ==> (#[trigger] (rust_plan(files).0
                + node_plan(files).0)[k]).0 != "Python"@,
        forall|k: int|
            0 <= k < (rust_plan(files).1 + node_plan(files).1).len() ==> (#[trigger] (rust_plan(files).1
                + node_plan(files).1)[k]).len() > 0 && (rust_plan(files).1 + node_plan(files).1)[k][0]
                != 'P',
{
    reveal_strlit("Python");
    reveal_strlit("Rust");
    reveal_strlit("Node");
    reveal_strlit("Rust: Cargo.toml not found");
    reveal_strlit("Node: package.json not found");
    reveal_strlit("Node: package.json has no `");
    let a = rust_plan(files);
    let n = node_plan(files);
    assert forall|k: int| 0 <= k < (a.0 + n.0).len() implies (#[trigger] (a.0 + n.0)[k]).0 != "Python"@ by {
        if k < a.0.len() {
            assert((a.0 + n.0)[k] == a.0[k]);
            assert("Rust"@.len() != "Python"@.len());
        } else {
            assert((a.0 + n.0)[k] == n.0[k - a.0.len()]);
            assert("Node"@.len() != "Python"@.len());
        }
    }
    assert forall|k: int| 0 <= k < (a.1 + n.1).len() implies (#[trigger] (a.1 + n.1)[k]).len() > 0 && (a.1
        + n.1)[k][0] != 'P' by {
        if k < a.1.len() {
            assert((a.1 + n.1)[k] == a.1[k]);
        } else {
            let j = k - a.1.len();
            assert((a.1 + n.1)[k] == n.1[j]);
            if has_file(files, "package.json"@) {
                let m = package_manager(files)->Some_0.1;
                let x = node_step(files, m, "test"@);
                let y = node_step(files, m, "build"@);
                let z = node_step(files, m, "lint"@);
                assert(n.1 == x.1 + y.1 + z.1);
                assert forall|q: Seq<char>| q.len() >= 0 implies ("Node: package.json has no `"@ + q
                    + "` script"@)[0] == 'N' by {
                    assert(("Node: package.json has no `"@ + q + "` script"@)[0] == "Node: package.json has no `"@[0]);
                }
                if j < x.1.len() {
                    assert(n.1[j] == x.1[j]);
                } else if j < x.1.len() + y.1.len() {
                    assert(n.1[j] == y.1[j - x.1.len()]);
                } else {
                    assert(n.1[j] == z.1[j - x.1.len() - y.1.len()]);
                }
            }
        }
    }
}

/// Where the workspace is a Python project, each of pytest, ruff and mypy
/// is planned exactly when it is configured (its own file, or its
/// `[tool.…` section in `pyproject.toml`), and skipped as not configured
/// exactly when it is not.
pub proof fn lemma_python_checks_planned(files: WorkspaceFiles)
    requires
        has_file(files, "pyproject.toml"@) || has_file(files, "setup.py"@) || has_file(
            files,
            "requirements.txt"@,
        ),
    ensures
        ({
            let cmds = plan(files).0;
            let skipped = plan(files).1;
            let pytest_cmd = ("Python"@, "pytest"@, "pytest"@, Seq::<Seq<char>>::empty());
            let ruff_cmd = ("Python"@, "ruff check ."@, "ruff"@, seq!["check"@, "."@]);
            let mypy_cmd = ("Python"@, "mypy ."@, "mypy"@, seq!["."@]);
            let pytest = has_file(files, "pytest.ini"@) || contains_seq(pyproject(files), "[tool.pytest"@);
            let ruff = has_file(files, "ruff.toml"@) || contains_seq(pyproject(files), "[tool.ruff"@);
            let mypy = has_file(files, "mypy.ini"@) || contains_seq(pyproject(files), "[tool.mypy"@);
            &&& cmds.contains(pytest_cmd) == pytest
            &&& skipped.contains("Python: pytest not configured"@) == !pytest
            &&& cmds.contains(ruff_cmd) == ruff
            &&& skipped.contains("Python: ruff not configured"@) == !ruff
            &&& cmds.contains(mypy_cmd) == mypy
            &&& skipped.contains("Python: mypy not configured"@) == !mypy
        }),
{
    reveal_strlit("Python");
    reveal_strlit("pytest");
    reveal_strlit("ruff check .");
    reveal_strlit("mypy .");
    reveal_strlit("Python: pytest not configured");
    reveal_strlit("Python: ruff not configured");
    reveal_strlit("Python: mypy not configured");
    lemma_plan_before_python(files);
    let r = rust_plan(files);
    let n = node_plan(files);
    let py = python_plan(files);
    let pc = ("Python"@, "pytest"@, "pytest"@, Seq::<Seq<char>>::empty());
    let rc = ("Python"@, "ruff check ."@, "ruff"@, seq!["check"@, "."@]);
    let mc = ("Python"@, "mypy ."@, "mypy"@, seq!["."@]);
    let pm = "Python: pytest not configured"@;
    let rm = "Python: ruff not configured"@;
    let mm = "Python: mypy not configured"@;
    assert(python_detected(files));
    let a = python_step(pytest_on(files), pc, pm);
    let b = python_step(ruff_on(files), rc, rm);
    let c = python_step(mypy_on(files), mc, mm);
    assert(py == (a.0 + b.0 + c.0, a.1 + b.1 + c.1));
    let x0 = r.0 + n.0;
    let x1 = r.1 + n.1;
    let cmds = plan(files).0;
    let sk = plan(files).1;
    assert(cmds == x0 + (a.0 + b.0 + c.0)) by {
        assert(r.0 + n.0 + py.0 =~= x0 + py.0);
    }
    assert(sk == x1 + (a.1 + b.1 + c.1)) by {
        assert(r.1 + n.1 + py.1 =~= x1 + py.1);
    }
    assert(pc.1 != rc.1 && pc.1 != mc.1 && rc.1 != mc.1) by {
        assert("pytest"@[0] != "mypy ."@[0]);
        assert("pytest"@.len() != "ruff check ."@.len());
        assert("mypy ."@.len() != "ruff check ."@.len());
    }
    assert(pm != rm && pm != mm && rm != mm) by {
        assert(pm[8] != rm[8]);
        assert(pm[8] != mm[8]);
        assert(rm[8] != mm[8]);
    }
    assert(pm[0] == 'P' && rm[0] == 'P' && mm[0] == 'P');
    let pp = a.0 + b.0 + c.0;
    let ps = a.1 + b.1 + c.1;
    // Which Python commands and reasons the plan holds.
    assert forall|v: (Seq<char>, Seq<char>, Seq<char>, Seq<Seq<char>>)| #[trigger] cmds.contains(v) && v.0
        == "Python"@ implies pp.contains(v) by {
        let k = choose|k: int| 0 <= k < cmds.len() && cmds[k] == v;
        if k < x0.len() {
            assert(cmds[k] == x0[k]);
        } else {
            assert(cmds[k] == pp[k - x0.len()]);
        }
    }
    assert forall|v: (Seq<char>, Seq<char>, Seq<char>, Seq<Seq<char>>)| #[trigger] pp.contains(v) implies cmds.contains(v) by {
        let k = choose|k: int| 0 <= k < pp.len() && pp[k] == v;
        assert(cmds[x0.len() + k] == v);
    }
    assert forall|m: Seq<char>| #[trigger] sk.contains(m) && m.len() > 0 && m[0] == 'P' implies ps.contains(m) by {
        let k = choose|k: int| 0 <= k < sk.len() && sk[k] == m;
        if k < x1.len() {
            assert(sk[k] == x1[k]);
        } else {
            assert(sk[k] == ps[k - x1.len()]);
        }
    }
    assert forall|m: Seq<char>| #[trigger] ps.contains(m) implies sk.contains(m) by {
        let k = choose|k: int| 0 <= k < ps.len() && ps[k] == m;
        assert(sk[x1.len() + k] == m);
    }
    // Within the Python part.
    assert(pp.contains(pc) == pytest_on(files)) by {
        if pytest_on(files) {
            assert(pp[0] == pc);
        } else {
            assert(pp =~= b.0 + c.0);
        }
    }
    assert(pp.contains(rc) == ruff_on(files)) by {
        if ruff_on(files) {
            assert(pp[a.0.len() as int] == rc);
        } else {
            assert(pp =~= a.0 + c.0);
        }
    }
    assert(pp.contains(mc) == mypy_on(files)) by {
        if mypy_on(files) {
            assert(pp[(a.0.len() + b.0.len()) as int] == mc);
        } else {
            assert(pp =~= a.0 + b.0);
        }
    }
    assert(ps.contains(pm) == !pytest_on(files)) by {
        if !pytest_on(files) {
            assert(ps[0] == pm);
        } else {
            assert(ps =~= b.1 + c.1);
        }
    }
    assert(ps.contains(rm) == !ruff_on(files)) by {
        if !ruff_on(files) {
            assert(ps[a.1.len() as int] == rm);
        } else {
            assert(ps =~= a.1 + c.1);
        }
    }
    assert(ps.contains(mm) == !mypy_on(files)) by {
        if !mypy_on(files) {
            assert(ps[(a.1.len() + b.1.len()) as int] == mm);
        } else {
            assert(ps =~= a.1 + b.1);
        }
    }
    assert(cmds.contains(pc) == pp.contains(pc));
    assert(cmds.contains(rc) == pp.contains(rc));
    assert(cmds.contains(mc) == pp.contains(mc));
    assert(sk.contains(pm) == ps.contains(pm));
    assert(sk.contains(rm) == ps.contains(rm));
    assert(sk.contains(mm) == ps.contains(mm));
}

/// A `package.json` script runs as `yarn {script}` under yarn and as
/// `{manager} run {script}` under any other manager, in the Node
/// ecosystem, by the manager's executable.
pub proof fn lemma_node_command_form(manager: Seq<char>, script: Seq<char>)
    ensures
        manager == "yarn"@ ==> node_command(manager, script) == ("Node"@, "yarn "@ + script, "yarn"@, seq![script]),
        manager != "yarn"@ ==> node_command(manager, script) == (
            "Node"@,
            manager + " run "@ + script,
            manager,
            seq!["run"@, script],
        ),
{
    reveal_strlit("yarn");
    reveal_strlit("yarn ");
    reveal_strlit(" ");
    if manager == "yarn"@ {
        assert("yarn"@ + " "@ + script =~= "yarn "@ + script);
    }
}

/// In a Node project each of the `test`, `build` and `lint` scripts that
/// `package.json` defines is planned, run by the project's package
/// manager, and each one it lacks is skipped with that reason; Cargo.toml
/// plans `cargo fmt --check`, `cargo test` and `cargo build`, first.
pub proof fn lemma_node_and_rust_planned(files: WorkspaceFiles, script: Seq<char>)
    requires
        script == "test"@ || script == "build"@ || script == "lint"@,
    ensures
        has_file(files, "package.json"@) && script_exists(files, script) ==> plan(files).0.contains(
            node_command(package_manager(files)->Some_0.1, script),
        ),
        has_file(files, "package.json"@) && !script_exists(files, script) ==> plan(files).1.contains(
            "Node: package.json has no `"@ + script + "` script"@,
        ),
        has_file(files, "Cargo.toml"@) ==> plan(files).0.take(3) == seq![
            ("Rust"@, "cargo fmt --check"@, "cargo"@, seq!["fmt"@, "--check"@]),
            ("Rust"@, "cargo test"@, "cargo"@, seq!["test"@]),
            ("Rust"@, "cargo build"@, "cargo"@, seq!["build"@]),
        ],
        !has_file(files, "Cargo.toml"@) ==> plan(files).1.contains("Rust: Cargo.toml not found"@),
{
    let r = rust_plan(files);
    let n = node_plan(files);
    let py = python_plan(files);
    let cmds = plan(files).0;
    let sk = plan(files).1;
    if has_file(files, "Cargo.toml"@) {
        assert(cmds.take(3) =~= r.0);
    } else {
        assert(sk[0] == "Rust: Cargo.toml not found"@);
    }
    if has_file(files, "package.json"@) {
        let m = package_manager(files)->Some_0.1;
        let x = node_step(files, m, "test"@);
        let y = node_step(files, m, "build"@);
        let z = node_step(files, m, "lint"@);
        let st = node_step(files, m, script);
        let off0: int = if script == "test"@ {
            0
        } else if script == "build"@ {
            x.0.len() as int
        } else {
            (x.0.len() + y.0.len()) as int
        };
        let off1: int = if script == "test"@ {
            0
        } else if script == "build"@ {
            x.1.len() as int
        } else {
            (x.1.len() + y.1.len()) as int
        };
        if script_exists(files, script) {
            assert(n.0[off0] == st.0[0]);
            assert(cmds[r.0.len() + off0] == n.0[off0]);
        } else {
            assert(n.1[off1] == st.1[0]);
            assert(sk[r.1.len() + off1] == n.1[off1]);
        }
    }
}

/// The overall status: `NOT_CONFIGURED` without checks; `FAILED` as soon
/// as one check failed or timed out, wherever it stands; `PASSED` when
/// every check passed; and a further passed check changes nothing.
pub proof fn lemma_overall_status_laws(statuses: Seq<Seq<char>>, k: int)
    ensures
        statuses.len() == 0 ==> overall_status(statuses) == "NOT_CONFIGURED"@,
        0 <= k < statuses.len() && (statuses[k] == "FAILED"@ || statuses[k] == "TIMED_OUT"@) ==> overall_status(
            statuses,
        ) == "FAILED"@,
        statuses.len() > 0 && (forall|i: int| 0 <= i < statuses.len() ==> #[trigger] statuses[i] == "PASSED"@)
            ==> overall_status(statuses) == "PASSED"@,
        statuses.len() > 0 ==> overall_status(statuses.push("PASSED"@)) == overall_status(statuses),
        overall_status(statuses.push("FAILED"@)) == "FAILED"@,
{
    reveal_strlit("PASSED");
    reveal_strlit("FAILED");
    reveal_strlit("TIMED_OUT");
    reveal_strlit("SKIPPED_MISSING_TOOL");
    let p = statuses.push("PASSED"@);
    assert(p[statuses.len() as int] == "PASSED"@);
    assert(statuses.push("FAILED"@)[statuses.len() as int] == "FAILED"@);
    assert("PASSED"@ != "FAILED"@ && "PASSED"@ != "TIMED_OUT"@ && "PASSED"@ != "SKIPPED_MISSING_TOOL"@) by {
        assert("PASSED"@[0] != "FAILED"@[0]);
    }
    assert forall|w: Seq<char>| w != "PASSED"@ implies p.contains(w) == statuses.contains(w) by {
        if p.contains(w) {
            let j = choose|j: int| 0 <= j < p.len() && p[j] == w;
            assert(j < statuses.len());
            assert(statuses[j] == w);
        }
        if statuses.contains(w) {
            let j = choose|j: int| 0 <= j < statuses.len() && statuses[j] == w;
            assert(p[j] == w);
        }
    }
    if statuses.len() > 0 && (forall|i: int| 0 <= i < statuses.len() ==> #[trigger] statuses[i] == "PASSED"@) {
        assert(!statuses.contains("FAILED"@));
        assert(!statuses.contains("TIMED_OUT"@));
        assert(!statuses.contains("SKIPPED_MISSING_TOOL"@));
    }
}

/// A check that succeeded passed; one that failed with an exit code
/// failed; only one cut off without an exit code timed out.
pub proof fn lemma_run_status_laws(exit_code: Option<i32>, stderr: Seq<char>)
    ensures
        run_status(true, exit_code, stderr) == "PASSED"@,
        exit_code is Some ==> run_status(false, exit_code, stderr) == "FAILED"@,
        run_status(false, None, "Command timed out"@ + stderr) == "TIMED_OUT"@,
{
    reveal_strlit("Command timed out");
    let s = "Command timed out"@ + stderr;
    assert(s.take("Command timed out"@.len() as int) =~= "Command timed out"@);
}

fn make_command(ecosystem: &str, command: &str, executable: &str, args: Vec<String>) -> (c:
    VerificationCommand)
    ensures
        c@ == (ecosystem@, command@, executable@, string_views(args@)),
{
    VerificationCommand {
        ecosystem: owned(ecosystem),
        command: owned(command),
        executable: owned(executable),
        args,
    }
}

fn push_command(cmds: &mut Vec<VerificationCommand>, c: VerificationCommand)
    ensures
        command_views(final(cmds)@) == command_views(old(cmds)@).push(c@),
{
    cmds.push(c);
    assert(command_views(cmds@) =~= command_views(old(cmds)@).push(c@));
}

fn push_string(v: &mut Vec<String>, s: String)
    ensures
        string_views(final(v)@) == string_views(old(v)@).push(s@),
{
    v.push(s);
    assert(string_views(v@) =~= string_views(old(v)@).push(s@));
}

fn one_arg(a: &str) -> (v: Vec<String>)
    ensures
        string_views(v@) == seq![a@],
{
    let mut v: Vec<String> = Vec::new();
    push_string(&mut v, owned(a));
    assert(string_views(v@) =~= seq![a@]);
    v
}

fn two_args(a: &str, b: &str) -> (v: Vec<String>)
    ensures
        string_views(v@) == seq![a@, b@],
{
    let mut v: Vec<String> = Vec::new();
    push_string(&mut v, owned(a));
    push_string(&mut v, owned(b));
    assert(string_views(v@) =~= seq![a@, b@]);
    v
}

fn plan_node_script(
    files: &WorkspaceFiles,
    manager: &str,
    script: &str,
    cmds: &mut Vec<VerificationCommand>,
    skipped: &mut Vec<String>,
)
    ensures
        command_views(final(cmds)@) == command_views(old(cmds)@) + node_step(*files, manager@, script@).0,
        string_views(final(skipped)@) == string_views(old(skipped)@) + node_step(*files, manager@, script@).1,
{
    if package_script_exists(files, script) {
        push_command(cmds, node_script_command(manager, script));
        assert(string_views(skipped@) =~= string_views(old(skipped)@) + Seq::<Seq<char>>::empty());
    } else {
        let mut msg = owned("Node: package.json has no `");
        push_str(&mut msg, script);
        push_str(&mut msg, "` script");
        proof {
            reveal_strlit("Node: package.json has no `");
            reveal_strlit("` script");
        }
        push_string(skipped, msg);
        assert(command_views(cmds@) =~= command_views(old(cmds)@) + Seq::<CommandV>::empty());
    }
}

fn plan_python_step(
    on: bool,
    c: VerificationCommand,
    skip: &str,
    cmds: &mut Vec<VerificationCommand>,
    skipped: &mut Vec<String>,
)
    ensures
        command_views(final(cmds)@) == command_views(old(cmds)@) + python_step(on, c@, skip@).0,
        string_views(final(skipped)@) == string_views(old(skipped)@) + python_step(on, c@, skip@).1,
{
    if on {
        push_command(cmds, c);
        assert(string_views(skipped@) =~= string_views(old(skipped)@) + Seq::<Seq<char>>::empty());
    } else {
        push_string(skipped, owned(skip));
        assert(command_views(cmds@) =~= command_views(old(cmds)@) + Seq::<CommandV>::empty());
    }
}

fn plan_rust(files: &WorkspaceFiles, cmds: &mut Vec<VerificationCommand>, skipped: &mut Vec<String>)
    ensures
        command_views(final(cmds)@) == command_views(old(cmds)@) + rust_plan(*files).0,
        string_views(final(skipped)@) == string_views(old(skipped)@) + rust_plan(*files).1,
{
    proof {
        reveal_strlit("Rust");
        reveal_strlit("cargo fmt --check");
        reveal_strlit("cargo");
        reveal_strlit("fmt");
        reveal_strlit("--check");
        reveal_strlit("cargo test");
        reveal_strlit("test");
        reveal_strlit("cargo build");
        reveal_strlit("build");
        reveal_strlit("Rust: Cargo.toml not found");
    }
    if has_file_exec(files, "Cargo.toml") {
        push_command(cmds, make_command("Rust", "cargo fmt --check", "cargo", two_args("fmt", "--check")));
        push_command(cmds, make_command("Rust", "cargo test", "cargo", one_arg("test")));
        push_command(cmds, make_command("Rust", "cargo build", "cargo", one_arg("build")));
        assert(string_views(skipped@) =~= string_views(old(skipped)@) + rust_plan(*files).1);
        assert(command_views(cmds@) =~= command_views(old(cmds)@) + rust_plan(*files).0);
    } else {
        push_string(skipped, owned("Rust: Cargo.toml not found"));
        assert(string_views(skipped@) =~= string_views(old(skipped)@) + rust_plan(*files).1);
        assert(command_views(cmds@) =~= command_views(old(cmds)@) + rust_plan(*files).0);
    }
}

fn plan_node(files: &WorkspaceFiles, cmds: &mut Vec<VerificationCommand>, skipped: &mut Vec<String>)
    ensures
        command_views(final(cmds)@) == command_views(old(cmds)@) + node_plan(*files).0,
        string_views(final(skipped)@) == string_views(old(skipped)@) + node_plan(*files).1,
{
    proof {
        reveal_strlit("test");
        reveal_strlit("build");
        reveal_strlit("lint");
        reveal_strlit("Node: package.json not found");
    }
    if has_file_exec(files, "package.json") {
        let manager = match node_package_manager(files) {
            Some((_, m)) => m,
            None => "npm",
        };
        plan_node_script(files, manager, "test", cmds, skipped);
        plan_node_script(files, manager, "build", cmds, skipped);
        plan_node_script(files, manager, "lint", cmds, skipped);
        assert(string_views(skipped@) =~= string_views(old(skipped)@) + node_plan(*files).1);
        assert(command_views(cmds@) =~= command_views(old(cmds)@) + node_plan(*files).0);
    } else {
        push_string(skipped, owned("Node: package.json not found"));
        assert(string_views(skipped@) =~= string_views(old(skipped)@) + node_plan(*files).1);
        assert(command_views(cmds@) =~= command_views(old(cmds)@) + node_plan(*files).0);
    }
}

fn plan_python(files: &WorkspaceFiles, cmds: &mut Vec<VerificationCommand>, skipped: &mut Vec<String>)
    ensures
        command_views(final(cmds)@) == command_views(old(cmds)@) + python_plan(*files).0,
        string_views(final(skipped)@) == string_views(old(skipped)@) + python_plan(*files).1,
{
    proof {
        reveal_strlit("Python");
        reveal_strlit("pytest");
        reveal_strlit("ruff check .");
        reveal_strlit("ruff");
        reveal_strlit("check");
        reveal_strlit(".");
        reveal_strlit("mypy .");
        reveal_strlit("mypy");
        reveal_strlit("Python: pytest not configured");
        reveal_strlit("Python: ruff not configured");
        reveal_strlit("Python: mypy not configured");
        reveal_strlit("Python: no Python project files found");
    }
    if python_project_detected(files) {
        let on = pytest_configured(files);
        let none: Vec<String> = Vec::new();
        assert(string_views(none@) =~= Seq::<Seq<char>>::empty());
        plan_python_step(on, make_command("Python", "pytest", "pytest", none), "Python: pytest not configured", cmds, skipped);
        let on = ruff_configured(files);
        plan_python_step(on, make_command("Python", "ruff check .", "ruff", two_args("check", ".")), "Python: ruff not configured", cmds, skipped);
        let on = mypy_configured(files);
        plan_python_step(on, make_command("Python", "mypy .", "mypy", one_arg(".")), "Python: mypy not configured", cmds, skipped);
        assert(string_views(skipped@) =~= string_views(old(skipped)@) + python_plan(*files).1);
        assert(command_views(cmds@) =~= command_views(old(cmds)@) + python_plan(*files).0);
    } else {
        push_string(skipped, owned("Python: no Python project files found"));
        assert(string_views(skipped@) =~= string_views(old(skipped)@) + python_plan(*files).1);
        assert(command_views(cmds@) =~= command_views(old(cmds)@) + python_plan(*files).0);
    }
}

/// The checks for the workspace, and why the others are skipped.
pub fn verification_plan(files: &WorkspaceFiles) -> (r: (Vec<VerificationCommand>, Vec<String>))
    ensures
        command_views(r.0@) == plan(*files).0,
        string_views(r.1@) == plan(*files).1,
{
    let mut cmds: Vec<VerificationCommand> = Vec::new();
    let mut skipped: Vec<String> = Vec::new();
    assert(command_views(cmds@) =~= Seq::<CommandV>::empty());
    assert(string_views(skipped@) =~= Seq::<Seq<char>>::empty());
    plan_rust(files, &mut cmds, &mut skipped);
    plan_node(files, &mut cmds, &mut skipped);
    plan_python(files, &mut cmds, &mut skipped);
    assert(command_views(cmds@) =~= plan(*files).0);
    assert(string_views(skipped@) =~= plan(*files).1);
    (cmds, skipped)
}

// ---------------------------------------------------------------------------
// Results
// ---------------------------------------------------------------------------

/// `PASSED` on success; `TIMED_OUT` when the run was cut off (no exit code
/// and the timeout message); `FAILED` otherwise.
pub open spec fn run_status(success: bool, exit_code: Option<i32>, stderr: Seq<char>) -> Seq<char> {
    if success {
        "PASSED"@
    } else if exit_code is None && crate::text::starts_with(stderr, "Command timed out"@) {
        "TIMED_OUT"@
    } else {
        "FAILED"@
    }
}

/// The status of a check that ran.
pub fn command_status(success: bool, exit_code: Option<i32>, stderr: &str) -> (s: &'static str)
    ensures
        s@ == run_status(success, exit_code, stderr@),
{
    proof {
        reveal_strlit("PASSED");
        reveal_strlit("TIMED_OUT");
        reveal_strlit("FAILED");
    }
    if success {
        "PASSED"
    } else if exit_code.is_none() && crate::text::str_starts_with(stderr, "Command timed out") {
        "TIMED_OUT"
    } else {
        "FAILED"
    }
}

/// The result of a check whose executable is not on the `PATH`.
pub fn missing_tool_result(c: VerificationCommand) -> (r: VerificationResult)
    ensures
        r.ecosystem@ == c.ecosystem@,
        r.command@ == c.command@,
        r.status@ == "SKIPPED_MISSING_TOOL"@,
        !r.success,
        r.exit_code is None,
        r.elapsed_ms == 0,
        string_views(r.summary@) == seq!["missing executable: "@ + c.executable@],
{
    let mut line = owned("missing executable: ");
    push_str(&mut line, c.executable.as_str());
    let mut summary: Vec<String> = Vec::new();
    push_string(&mut summary, line);
    proof {
        reveal_strlit("missing executable: ");
        assert(string_views(summary@) =~= seq!["missing executable: "@ + c.executable@]);
    }
    VerificationResult {
        ecosystem: c.ecosystem,
        command: c.command,
        status: owned("SKIPPED_MISSING_TOOL"),
        success: false,
        exit_code: None,
        elapsed_ms: 0,
        summary,
    }
}

/// The result of a check that ran.
pub fn finished_result(
    c: VerificationCommand,
    success: bool,
    exit_code: Option<i32>,
    elapsed_ms: u64,
    stderr: &str,
    summary: Vec<String>,
) -> (r: VerificationResult)
    ensures
        r.ecosystem@ == c.ecosystem@,
        r.command@ == c.command@,
        r.status@ == run_status(success, exit_code, stderr@),
        r.success == success,
        r.exit_code == exit_code,
        r.elapsed_ms == elapsed_ms,
        r.summary@ == summary@,
{
    VerificationResult {
        ecosystem: c.ecosystem,
        command: c.command,
        status: owned(command_status(success, exit_code, stderr)),
        success,
        exit_code,
        elapsed_ms,
        summary,
    }
}

pub open spec fn result_statuses(v: Seq<VerificationResult>) -> Seq<Seq<char>> {
    v.map_values(|r: VerificationResult| r.status@)
}

/// `NOT_CONFIGURED` without checks; `FAILED` when one failed or timed out;
/// `PARTIAL` when a tool was missing; `PASSED` otherwise.
pub open spec fn overall_status(statuses: Seq<Seq<char>>) -> Seq<char> {
    if statuses.len() == 0 {
        "NOT_CONFIGURED"@
    } else if statuses.contains("FAILED"@) || statuses.contains("TIMED_OUT"@) {
        "FAILED"@
    } else if statuses.contains("SKIPPED_MISSING_TOOL"@) {
        "PARTIAL"@
    } else {
        "PASSED"@
    }
}

fn any_status(results: &Vec<VerificationResult>, status: &str) -> (b: bool)
    ensures
        b == result_statuses(results@).contains(status@),
{
    let ghost sv = result_statuses(results@);
    let mut i: usize = 0;
    while i < results.len()
        invariant
            i <= results@.len(),
            sv == result_statuses(results@),
            forall|k: int| 0 <= k < i ==> sv[k] != status@,
        decreases results@.len() - i,
    {
        if crate::text::str_eq(results[i].status.as_str(), status) {
            assert(sv[i as int] == status@);
            return true;
        }
        i += 1;
    }
    false
}

/// The output of a verification run.
pub fn project_output(results: Vec<VerificationResult>, skipped: Vec<String>) -> (o: VerifyProjectOutput)
    ensures
        o.status@ == overall_status(result_statuses(results@)),
        o.success == (o.status@ == "PASSED"@),
        o.commands@ == results@,
        o.skipped@ == skipped@,
{
    proof {
        reveal_strlit("NOT_CONFIGURED");
        reveal_strlit("FAILED");
        reveal_strlit("TIMED_OUT");
        reveal_strlit("SKIPPED_MISSING_TOOL");
        reveal_strlit("PARTIAL");
        reveal_strlit("PASSED");
    }
    let status: &'static str = if results.len() == 0 {
        "NOT_CONFIGURED"
    } else if any_status(&results, "FAILED") || any_status(&results, "TIMED_OUT") {
        "FAILED"
    } else if any_status(&results, "SKIPPED_MISSING_TOOL") {
        "PARTIAL"
    } else {
        "PASSED"
    };
    let success = crate::text::str_eq(status, "PASSED");
    VerifyProjectOutput { success, status: owned(status), commands: results, skipped }
}

// ---------------------------------------------------------------------------
// Summaries
// ---------------------------------------------------------------------------

/// The errors, then the key output lines not already listed.
pub open spec fn merged_lines(errors: Seq<Seq<char>>, key: Seq<Seq<char>>) -> Seq<Seq<char>>
    decreases key.len(),
{
    if key.len() == 0 {
        errors
    } else {
        let m = merged_lines(errors, key.drop_last());
        if m.contains(key.last()) {
            m
        } else {
            m.push(key.last())
        }
    }
}

/// The summary of a check: errors first, then key output lines not yet
/// listed, `(no output)` when there is nothing, at most 18 lines.
pub open spec fn summary_of(errors: Seq<Seq<char>>, key: Seq<Seq<char>>) -> Seq<Seq<char>> {
    let m = merged_lines(errors, key);
    let m2 = if m.len() == 0 {
        seq!["(no output)"@]
    } else {
        m
    };
    if m2.len() > MAX_SUMMARY_LINES {
        m2.take(MAX_SUMMARY_LINES as int)
    } else {
        m2
    }
}

fn strings_contain(v: &Vec<String>, s: &str) -> (b: bool)
    ensures
        b == string_views(v@).contains(s@),
{
    let ghost sv = string_views(v@);
    let mut i: usize = 0;
    while i < v.len()
        invariant
            i <= v@.len(),
            sv == string_views(v@),
            forall|k: int| 0 <= k < i ==> sv[k] != s@,
        decreases v@.len() - i,
    {
        if crate::text::str_eq(v[i].as_str(), s) {
            assert(sv[i as int] == s@);
            return true;
        }
        i += 1;
    }
    false
}

/// The summary lines of a check from the errors and key output lines
/// found in what it printed.
pub fn summary_lines_from(errors: Vec<String>, key_output: Vec<String>) -> (r: Vec<String>)
    ensures
        string_views(r@) == summary_of(string_views(errors@), string_views(key_output@)),
{
    let ghost ev = string_views(errors@);
    let ghost kv = string_views(key_output@);
    let mut lines = errors;
    let mut i: usize = 0;
    assert(kv.take(0) =~= Seq::<Seq<char>>::empty());
    while i < key_output.len()
        invariant
            i <= key_output@.len(),
            kv == string_views(key_output@),
            string_views(lines@) == merged_lines(ev, kv.take(i as int)),
        decreases key_output@.len() - i,
    {
        assert(kv.take(i + 1).drop_last() =~= kv.take(i as int));
        assert(kv.take(i + 1).last() == key_output@[i as int]@);
        if !strings_contain(&lines, key_output[i].as_str()) {
            push_string(&mut lines, owned(key_output[i].as_str()));
        }
        i += 1;
    }
    assert(kv.take(key_output@.len() as int) =~= kv);
    if lines.len() == 0 {
        push_string(&mut lines, owned("(no output)"));
        proof {
            reveal_strlit("(no output)");
        }
    }
    if lines.len() > MAX_SUMMARY_LINES {
        let ghost before = lines@;
        lines.truncate(MAX_SUMMARY_LINES);
        assert(string_views(lines@) =~= string_views(before).take(MAX_SUMMARY_LINES as int));
    }
    lines
}

// ---------------------------------------------------------------------------
// Text
// ---------------------------------------------------------------------------

pub open spec fn bool_text(b: bool) -> Seq<char> {
    if b {
        "true"@
    } else {
        "false"@
    }
}

pub open spec fn exit_code_text(code: Option<i32>) -> Seq<char> {
    match code {
        Some(c) => decimal_int(c as int),
        None => "none"@,
    }
}

/// The heading and summary of one result.
pub open spec fn result_text(r: VerificationResult) -> Seq<char> {
    "\n## "@ + r.ecosystem@ + " - "@ + r.command@ + "\nstatus: "@ + r.status@ + "\nexit_code: "@
        + exit_code_text(r.exit_code) + "\nelapsed_ms: "@ + decimal(r.elapsed_ms as nat) + "\n"@
        + crate::text::bullets(string_views(r.summary@))
}

pub open spec fn results_text(v: Seq<VerificationResult>) -> Seq<char>
    decreases v.len(),
{
    if v.len() == 0 {
        seq![]
    } else {
        results_text(v.drop_last()) + result_text(v.last())
    }
}

impl VerifyProjectOutput {
    pub open spec fn rendered(self) -> Seq<char> {
        "status: "@ + self.status@ + "\nsuccess: "@ + bool_text(self.success) + "\ncommands: "@
            + decimal(self.commands@.len()) + "\n"@ + (if self.skipped@.len() > 0 {
            "\nskipped:\n"@ + crate::text::bullets(string_views(self.skipped@))
        } else {
            seq![]
        }) + results_text(self.commands@)
    }

    /// Status, success and the number of checks; the skipped checks; then
    /// each check with its summary.
    pub fn render_text(&self) -> (s: String)
        ensures
            s@ == self.rendered(),
    {
        let mut out = owned("status: ");
        push_str(&mut out, self.status.as_str());
        push_str(&mut out, "\nsuccess: ");
        push_str(&mut out, if self.success { "true" } else { "false" });
        push_str(&mut out, "\ncommands: ");
        push_str(&mut out, decimal_u64(self.commands.len() as u64).as_str());
        push_str(&mut out, "\n");
        if self.skipped.len() > 0 {
            push_str(&mut out, "\nskipped:\n");
            crate::text::push_bullets(&mut out, self.skipped.as_slice());
        }
        proof {
            reveal_strlit("status: ");
            reveal_strlit("\nsuccess: ");
            reveal_strlit("true");
            reveal_strlit("false");
            reveal_strlit("\ncommands: ");
            reveal_strlit("\n");
            reveal_strlit("\nskipped:\n");
        }
        let ghost head = out@;
        let ghost all = self.commands@;
        let mut i: usize = 0;
        assert(all.take(0) =~= Seq::<VerificationResult>::empty());
        assert(out@ =~= head + results_text(all.take(0)));
        while i < self.commands.len()
            invariant
                i <= all.len(),
                all == self.commands@,
                out@ == head + results_text(all.take(i as int)),
            decreases all.len() - i,
        {
            assert(all.take(i + 1).drop_last() =~= all.take(i as int));
            assert(all.take(i + 1).last() == all[i as int]);
            push_result(&mut out, &self.commands[i]);
            assert(out@ =~= head + results_text(all.take(i + 1)));
            i += 1;
        }
        assert(all.take(all.len() as int) =~= all);
        assert(out@ =~= self.rendered());
        out
    }
}

fn push_result(out: &mut String, r: &VerificationResult)
    ensures
        final(out)@ == old(out)@ + result_text(*r),
{
    push_str(out, "\n## ");
    push_str(out, r.ecosystem.as_str());
    push_str(out, " - ");
    push_str(out, r.command.as_str());
    push_str(out, "\nstatus: ");
    push_str(out, r.status.as_str());
    push_str(out, "\nexit_code: ");
    match r.exit_code {
        Some(code) => push_str(out, decimal_i64(code as i64).as_str()),
        None => push_str(out, "none"),
    }
    push_str(out, "\nelapsed_ms: ");
    push_str(out, decimal_u64(r.elapsed_ms).as_str());
    push_str(out, "\n");
    crate::text::push_bullets(out, r.summary.as_slice());
    proof {
        reveal_strlit("\n## ");
        reveal_strlit(" - ");
        reveal_strlit("\nstatus: ");
        reveal_strlit("\nexit_code: ");
        reveal_strlit("none");
        reveal_strlit("\nelapsed_ms: ");
        reveal_strlit("\n");
    }
    assert(final(out)@ =~= old(out)@ + result_text(*r));
}

} // verus!
