//! Markdown prompt templates kept in `.catdesk/prompts/`: the defaults, safe
//! template names, descriptions, and the text shown for them.
use vstd::prelude::*;
use crate::number::{decimal, decimal_u64};
use crate::text::{
    chars_of, ends_with, first_where, is_ascii_alnum, is_ascii_alnum_char, lines, lines_of,
    push_char, push_chars, push_str, slice_chars, starts_with, str_eq, string_of, trim,
    trim_chars,
};

verus! {

pub const CATDESK_DIR: &'static str = ".catdesk";

pub const PROMPTS_DIR: &'static str = "prompts";

#[derive(Clone, Copy)]
pub struct DefaultTemplate {
    pub name: &'static str,
    pub title: &'static str,
    pub body: &'static str,
}

pub open spec fn template_name(i: int) -> Seq<char> {
    if i == 0 {
        "start_session.md"@
    } else if i == 1 {
        "plan_first.md"@
    } else if i == 2 {
        "security_review.md"@
    } else if i == 3 {
        "code_review.md"@
    } else if i == 4 {
        "verify_changes.md"@
    } else {
        "end_session.md"@
    }
}

pub open spec fn template_title(i: int) -> Seq<char> {
    if i == 0 {
        "Start Session"@
    } else if i == 1 {
        "Plan First"@
    } else if i == 2 {
        "Security Review"@
    } else if i == 3 {
        "Code Review"@
    } else if i == 4 {
        "Verify Changes"@
    } else {
        "End Session"@
    }
}

pub open spec fn template_body(i: int) -> Seq<char> {
    if i == 0 {
        "Goal:\n\nProject context to read first:\n\nConstraints:\n\nDefinition of done:\n"@
    } else if i == 1 {
        "Goal:\n\nRelevant files:\n\nRisks:\n\nPlan:\n1. Inspect context.\n2. Identify the smallest safe change.\n3. Implement.\n4. Verify.\n"@
    } else if i == 2 {
        "Review scope:\n\nPrioritize:\n- Data loss risks\n- Path traversal\n- Shell execution risks\n- Secret exposure\n- Permission boundary mistakes\n"@
    } else if i == 3 {
        "Review focus:\n\nPrioritize:\n- Bugs and regressions\n- Missing tests\n- Safety or data-loss risks\n- Unclear user-facing behavior\n"@
    } else if i == 4 {
        "Changed files:\n\nExpected behavior:\n\nVerification commands:\n\nKnown residual risk:\n"@
    } else {
        "Session goal:\n\nFiles changed:\n\nVerification:\n\nRemaining work:\n\nResume prompt:\n"@
    }
}

pub open spec fn is_default_template(t: DefaultTemplate, i: int) -> bool {
    t.name@ == template_name(i) && t.title@ == template_title(i) && t.body@ == template_body(i)
}

fn default_template_at(i: usize) -> (t: DefaultTemplate)
    requires
        i < 6,
    ensures
        is_default_template(t, i as int),
{
    if i == 0 {
        DefaultTemplate {
            name: "start_session.md",
            title: "Start Session",
            body: "Goal:\n\nProject context to read first:\n\nConstraints:\n\nDefinition of done:\n",
        }
    } else if i == 1 {
        DefaultTemplate {
            name: "plan_first.md",
            title: "Plan First",
            body: "Goal:\n\nRelevant files:\n\nRisks:\n\nPlan:\n1. Inspect context.\n2. Identify the smallest safe change.\n3. Implement.\n4. Verify.\n",
        }
    } else if i == 2 {
        DefaultTemplate {
            name: "security_review.md",
            title: "Security Review",
            body: "Review scope:\n\nPrioritize:\n- Data loss risks\n- Path traversal\n- Shell execution risks\n- Secret exposure\n- Permission boundary mistakes\n",
        }
    } else if i == 3 {
        DefaultTemplate {
            name: "code_review.md",
            title: "Code Review",
            body: "Review focus:\n\nPrioritize:\n- Bugs and regressions\n- Missing tests\n- Safety or data-loss risks\n- Unclear user-facing behavior\n",
        }
    } else if i == 4 {
        DefaultTemplate {
            name: "verify_changes.md",
            title: "Verify Changes",
            body: "Changed files:\n\nExpected behavior:\n\nVerification commands:\n\nKnown residual risk:\n",
        }
    } else {
        DefaultTemplate {
            name: "end_session.md",
            title: "End Session",
            body: "Session goal:\n\nFiles changed:\n\nVerification:\n\nRemaining work:\n\nResume prompt:\n",
        }
    }
}

/// The six templates written when the prompts directory is set up.
pub fn default_templates() -> (v: Vec<DefaultTemplate>)
    ensures
        v@.len() == 6,
        forall|i: int| 0 <= i < 6 ==> is_default_template(#[trigger] v@[i], i),
{
    let mut v: Vec<DefaultTemplate> = Vec::new();
    let mut i: usize = 0;
    while i < 6
        invariant
            i <= 6,
            v@.len() == i,
            forall|k: int| 0 <= k < i ==> is_default_template(#[trigger] v@[k], k),
        decreases 6 - i,
    {
        v.push(default_template_at(i));
        i += 1;
    }
    v
}

/// `# {title}\n\n{body}`.
pub fn default_template_text(template: DefaultTemplate) -> (s: String)
    ensures
        s@ == "# "@ + template.title@ + "\n\n"@ + template.body@,
{
    let mut s = String::new();
    push_str(&mut s, "# ");
    push_str(&mut s, template.title);
    push_str(&mut s, "\n\n");
    push_str(&mut s, template.body);
    s
}

// ---------------------------------------------------------------------------
// Names
// ---------------------------------------------------------------------------

pub open spec fn empty_name_msg() -> Seq<char> {
    "template name must not be empty"@
}

pub open spec fn path_name_msg() -> Seq<char> {
    "template name must be a file name, not a path"@
}

pub open spec fn bad_chars_msg() -> Seq<char> {
    "template name may contain only letters, numbers, hyphen, and underscore"@
}

pub open spec fn stem_char(c: char) -> bool {
    is_ascii_alnum(c) || c == '-' || c == '_'
}

/// The name without a final `.md`.
pub open spec fn stem_of(n: Seq<char>) -> Seq<char> {
    if ends_with(n, ".md"@) {
        n.take(n.len() - 3)
    } else {
        n
    }
}

pub open spec fn all_stem_chars(s: Seq<char>) -> bool {
    forall|i: int| 0 <= i < s.len() ==> stem_char(#[trigger] s[i])
}

/// The file name for a template name: trimmed; not empty; not a path,
/// `.` or `..`; an optional `.md` dropped, the rest ASCII letters, digits,
/// `-` and `_`; then `.md` added.
pub open spec fn safe_name(name: Seq<char>) -> Result<Seq<char>, Seq<char>> {
    let n = trim(name);
    if n.len() == 0 {
        Err(empty_name_msg())
    } else if n.contains('/') || n.contains('\\') || n == "."@ || n == ".."@ {
        Err(path_name_msg())
    } else {
        let stem = stem_of(n);
        if stem.len() == 0 || !all_stem_chars(stem) {
            Err(bad_chars_msg())
        } else {
            Ok(stem + ".md"@)
        }
    }
}

/// The file name of a template, or why `name` is not acceptable.
pub fn safe_template_name(name: &str) -> (r: Result<String, String>)
    ensures
        match r {
            Ok(s) => safe_name(name@) == Ok::<Seq<char>, Seq<char>>(s@),
            Err(e) => safe_name(name@) == Err::<Seq<char>, Seq<char>>(e@),
        },
{
    proof {
        reveal_strlit("template name must not be empty");
        reveal_strlit("template name must be a file name, not a path");
        reveal_strlit("template name may contain only letters, numbers, hyphen, and underscore");
        reveal_strlit(".");
        reveal_strlit("..");
        reveal_strlit(".md");
    }
    let n = trim_chars(chars_of(name).as_slice());
    if n.len() == 0 {
        return Err(string_of(chars_of("template name must not be empty").as_slice()));
    }
    if crate::text::char_in(n.as_slice(), '/') || crate::text::char_in(n.as_slice(), '\\')
        || crate::text::chars_eq(n.as_slice(), chars_of(".").as_slice())
        || crate::text::chars_eq(n.as_slice(), chars_of("..").as_slice()) {
        return Err(string_of(chars_of("template name must be a file name, not a path").as_slice()));
    }
    let md = chars_of(".md");
    let stem = if crate::text::ends_with_chars(n.as_slice(), md.as_slice()) {
        slice_chars(n.as_slice(), 0, n.len() - 3)
    } else {
        slice_chars(n.as_slice(), 0, n.len())
    };
    assert(stem@ =~= (if ends_with(n@, ".md"@) {
        n@.take(n@.len() - 3)
    } else {
        n@
    }));
    let ghost spec_stem = stem@;
    let mut ok = stem.len() > 0;
    let mut i: usize = 0;
    while i < stem.len()
        invariant
            i <= stem@.len(),
            stem@ == spec_stem,
            ok == (stem@.len() > 0 && forall|k: int| 0 <= k < i ==> stem_char(#[trigger] stem@[k])),
        decreases stem@.len() - i,
    {
        let c = stem[i];
        if !(is_ascii_alnum_char(c) || c == '-' || c == '_') {
            ok = false;
        }
        i += 1;
    }
    if !ok {
        assert(n@ == trim(name@));
        assert(!(spec_stem.len() > 0 && forall|k: int| 0 <= k < spec_stem.len() ==> stem_char(#[trigger] spec_stem[k])));
        return Err(
            string_of(
                chars_of(
                    "template name may contain only letters, numbers, hyphen, and underscore",
                ).as_slice(),
            ),
        );
    }
    let mut s = string_of(stem.as_slice());
    push_str(&mut s, ".md");
    Ok(s)
}

// ---------------------------------------------------------------------------
// Templates
// ---------------------------------------------------------------------------

/// A line that is neither blank nor a heading.
pub open spec fn describes(line: Seq<char>) -> bool {
    trim(line).len() > 0 && !starts_with(trim(line), "#"@)
}

/// The first line that is neither blank nor a heading, trimmed, at most
/// 120 characters; empty without one.
pub open spec fn description_of(text: Seq<char>) -> Seq<char> {
    let ls = lines(text);
    if exists|i: int| 0 <= i < ls.len() && describes(#[trigger] ls[i]) {
        let i = choose|i: int|
            0 <= i < ls.len() && describes(#[trigger] ls[i]) && forall|j: int|
                0 <= j < i ==> !describes(#[trigger] ls[j]);
        let t = trim(ls[i]);
        if t.len() > 120 {
            t.take(120)
        } else {
            t
        }
    } else {
        seq![]
    }
}

/// The description shown for a template.
pub fn template_description(text: &str) -> (s: String)
    ensures
        s@ == description_of(text@),
{
    let ls = lines_of(chars_of(text).as_slice());
    let ghost all = ls@.map_values(|l: Vec<char>| l@);
    assert(all == lines(text@));
    let hash = chars_of("#");
    proof {
        reveal_strlit("#");
    }
    let mut i: usize = 0;
    while i < ls.len()
        invariant
            i <= ls@.len(),
            all == ls@.map_values(|l: Vec<char>| l@),
            all == lines(text@),
            hash@ == "#"@,
            forall|j: int| 0 <= j < i ==> !describes(#[trigger] all[j]),
        decreases ls@.len() - i,
    {
        let t = trim_chars(ls[i].as_slice());
        assert(all[i as int] == ls@[i as int]@);
        if t.len() > 0 && !crate::text::starts_with_chars(t.as_slice(), hash.as_slice()) {
            proof {
                let w = choose|w: int|
                    0 <= w < all.len() && describes(#[trigger] all[w]) && forall|j: int|
                        0 <= j < w ==> !describes(#[trigger] all[j]);
                assert(w == i) by {
                    if w > i {
                        assert(describes(all[i as int]));
                    }
                }
            }
            let n = if t.len() > 120 {
                120
            } else {
                t.len()
            };
            let d = slice_chars(t.as_slice(), 0, n);
            assert(d@ =~= (if t@.len() > 120 {
                t@.take(120)
            } else {
                t@
            }));
            return string_of(d.as_slice());
        }
        i += 1;
    }
    String::new()
}

/// `unix:{seconds}`.
pub fn modified_time_text(seconds: u64) -> (s: String)
    ensures
        s@ == "unix:"@ + decimal(seconds as nat),
{
    let mut s = String::new();
    push_str(&mut s, "unix:");
    push_str(&mut s, decimal_u64(seconds).as_str());
    s
}

pub struct PromptTemplate {
    pub name: String,
    pub path: String,
    pub bytes: usize,
    pub description: String,
    pub modified_time: Option<String>,
    pub text: String,
}

pub struct PromptTemplatesOutput {
    pub root: String,
    pub templates: Vec<PromptTemplate>,
}

pub struct PromptTemplateWriteOutput {
    pub template: PromptTemplate,
    pub created: bool,
}

/// A template read from disk: its size and description, and its text only
/// when asked for.
pub fn prompt_template(
    name: String,
    path: String,
    text: String,
    modified_time: Option<String>,
    include_text: bool,
) -> (t: PromptTemplate)
    ensures
        t.name == name,
        t.path == path,
        t.bytes == vstd::utf8::encode_utf8(text@).len() as usize,
        t.description@ == description_of(text@),
        t.modified_time == modified_time,
        t.text@ == if include_text {
            text@
        } else {
            Seq::<char>::empty()
        },
{
    let bytes = text.as_str().len();
    let description = template_description(text.as_str());
    PromptTemplate {
        name,
        path,
        bytes,
        description,
        modified_time,
        text: if include_text {
            text
        } else {
            String::new()
        },
    }
}

pub open spec fn exists_msg() -> Seq<char> {
    "Prompt template already exists. Set overwrite=true to replace it."@
}

/// Whether a write creates the template; an existing one is replaced only
/// with `overwrite`.
pub fn write_creates(exists: bool, overwrite: bool) -> (r: Result<bool, String>)
    ensures
        match r {
            Ok(created) => created == !exists && (exists ==> overwrite),
            Err(e) => exists && !overwrite && e@ == exists_msg(),
        },
{
    if exists && !overwrite {
        proof {
            reveal_strlit("Prompt template already exists. Set overwrite=true to replace it.");
        }
        return Err(
            string_of(
                chars_of("Prompt template already exists. Set overwrite=true to replace it.").as_slice(),
            ),
        );
    }
    Ok(!exists)
}

/// `Prompt template not found: {name}`.
pub fn not_found_message(name: &str) -> (s: String)
    ensures
        s@ == "Prompt template not found: "@ + name@,
{
    let mut s = String::new();
    push_str(&mut s, "Prompt template not found: ");
    push_str(&mut s, name);
    s
}

/// A template's heading, path and size, then its text if it was read.
pub open spec fn template_md(t: PromptTemplate) -> Seq<char> {
    "\n## "@ + t.name@ + "\npath: "@ + t.path@ + "\nbytes: "@ + decimal(t.bytes as nat) + "\n"@
        + if t.text@.len() == 0 {
        seq![]
    } else {
        "\n"@ + t.text@ + if t.text@.last() == '\n' {
            seq![]
        } else {
            seq!['\n']
        }
    }
}

pub open spec fn templates_md(v: Seq<PromptTemplate>) -> Seq<char>
    decreases v.len(),
{
    if v.len() == 0 {
        seq![]
    } else {
        templates_md(v.drop_last()) + template_md(v.last())
    }
}

fn push_template(out: &mut String, t: &PromptTemplate)
    ensures
        final(out)@ == old(out)@ + template_md(*t),
{
    push_str(out, "\n## ");
    push_str(out, t.name.as_str());
    push_str(out, "\npath: ");
    push_str(out, t.path.as_str());
    push_str(out, "\nbytes: ");
    push_str(out, decimal_u64(t.bytes as u64).as_str());
    push_str(out, "\n");
    let v = chars_of(t.text.as_str());
    if v.len() > 0 {
        push_char(out, '\n');
        push_chars(out, v.as_slice());
        if v[v.len() - 1] != '\n' {
            push_char(out, '\n');
        }
    }
    proof {
        reveal_strlit("\n## ");
        reveal_strlit("\npath: ");
        reveal_strlit("\nbytes: ");
        reveal_strlit("\n");
    }
    assert(final(out)@ =~= old(out)@ + template_md(*t));
}

impl PromptTemplatesOutput {
    pub open spec fn rendered(self) -> Seq<char> {
        "root: "@ + self.root@ + "\ntemplates: "@ + decimal(self.templates@.len()) + "\n"@
            + templates_md(self.templates@)
    }

    /// The root and template count, then each template.
    pub fn render_text(&self) -> (s: String)
        ensures
            s@ == self.rendered(),
    {
        let mut out = String::new();
        push_str(&mut out, "root: ");
        push_str(&mut out, self.root.as_str());
        push_str(&mut out, "\ntemplates: ");
        push_str(&mut out, decimal_u64(self.templates.len() as u64).as_str());
        push_str(&mut out, "\n");
        let ghost head = out@;
        let ghost all = self.templates@;
        let mut i: usize = 0;
        assert(all.take(0) =~= Seq::<PromptTemplate>::empty());
        assert(out@ =~= head + templates_md(all.take(0)));
        while i < self.templates.len()
            invariant
                i <= all.len(),
                all == self.templates@,
                out@ == head + templates_md(all.take(i as int)),
            decreases all.len() - i,
        {
            assert(all.take(i + 1).drop_last() =~= all.take(i as int));
            assert(all.take(i + 1).last() == all[i as int]);
            push_template(&mut out, &self.templates[i]);
            assert(out@ =~= head + templates_md(all.take(i + 1)));
            i += 1;
        }
        assert(all.take(all.len() as int) =~= all);
        proof {
            reveal_strlit("root: ");
            reveal_strlit("\ntemplates: ");
            reveal_strlit("\n");
        }
        assert(out@ =~= self.rendered());
        out
    }
}

impl PromptTemplateWriteOutput {
    /// `created` or `updated` with the name, then the path and size.
    pub fn render_text(&self) -> (s: String)
        ensures
            s@ == (if self.created {
                "created"@
            } else {
                "updated"@
            }) + ": "@ + self.template.name@ + "\npath: "@ + self.template.path@ + "\nbytes: "@
                + decimal(self.template.bytes as nat),
    {
        let mut out = String::new();
        push_str(&mut out, if self.created { "created" } else { "updated" });
        push_str(&mut out, ": ");
        push_str(&mut out, self.template.name.as_str());
        push_str(&mut out, "\npath: ");
        push_str(&mut out, self.template.path.as_str());
        push_str(&mut out, "\nbytes: ");
        push_str(&mut out, decimal_u64(self.template.bytes as u64).as_str());
        out
    }
}

// ---------------------------------------------------------------------------
// Laws
// ---------------------------------------------------------------------------

/// An accepted template name is a plain `.md` file name: no path
/// separator, and only letters, digits, `-` and `_` before `.md`.
pub proof fn lemma_safe_name_is_file_name(name: Seq<char>)
    requires
        safe_name(name) is Ok,
    ensures
        ({
            let f = safe_name(name)->Ok_0;
            &&& !f.contains('/')
            &&& !f.contains('\\')
            &&& ends_with(f, ".md"@)
            &&& f.len() > 3
            &&& all_stem_chars(f.take(f.len() - 3))
        }),
{
    reveal_strlit(".md");
    let n = trim(name);
    let stem = stem_of(n);
    let f = stem + ".md"@;
    assert(f.take(f.len() - 3) =~= stem);
    assert(f.skip(f.len() - 3) =~= ".md"@);
    assert(!f.contains('/')) by {
        if f.contains('/') {
            let k = choose|k: int| 0 <= k < f.len() && f[k] == '/';
            if k < stem.len() {
                assert(stem_char(stem[k]));
            } else {
                assert(f[k] == ".md"@[k - stem.len()]);
            }
        }
    }
    assert(!f.contains('\\')) by {
        if f.contains('\\') {
            let k = choose|k: int| 0 <= k < f.len() && f[k] == '\\';
            if k < stem.len() {
                assert(stem_char(stem[k]));
            } else {
                assert(f[k] == ".md"@[k - stem.len()]);
            }
        }
    }
}

/// Accepting a name twice changes nothing: an accepted name is accepted as
/// it is.
pub proof fn lemma_safe_name_idempotent(name: Seq<char>)
    requires
        safe_name(name) is Ok,
    ensures
        safe_name(safe_name(name)->Ok_0) == safe_name(name),
{
    reveal_strlit(".md");
    reveal_strlit(".");
    reveal_strlit("..");
    lemma_safe_name_is_file_name(name);
    let f = safe_name(name)->Ok_0;
    let stem = f.take(f.len() - 3);
    assert(stem.len() > 0);
    assert(!crate::text::is_ws(f[0])) by {
        assert(f[0] == stem[0]);
        assert(stem_char(stem[0]));
    }
    assert(!crate::text::is_ws(f.last())) by {
        assert(f.last() == 'd');
    }
    crate::text::lemma_trim_start_at(f, 0);
    assert(f.skip(0) =~= f);
    crate::text::lemma_trim_end_at(f, f.len() as int);
    assert(f.take(f.len() as int) =~= f);
    assert(trim(f) == f);
    assert(f != "."@ && f != ".."@) by {
        assert(f.len() > 3);
    }
    assert(stem_of(f) == stem);
    assert(stem + ".md"@ =~= f);
}

} // verus!
