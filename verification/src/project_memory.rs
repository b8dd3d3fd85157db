//! Markdown memory documents kept in `.catdesk/`: their defaults, appending
//! sections, the session resume note, and the text shown for them.
use vstd::prelude::*;
use crate::text::string_views;
use crate::markdown::{normalize_markdown, normalized_md};
use crate::number::{decimal, decimal_u64};
use crate::text::{
    bullets, chars_of, ends_with, eq_ignore_ascii_case, lower_seq, push_char, push_str,
    str_ends_with, str_eq, str_trim, string_of, trim,
};

verus! {

/// The directory of the memory documents, below the workspace root.
pub const MEMORY_DIR: &'static str = ".catdesk";

/// The section name that means "no section".
pub const DEFAULT_SECTION: &'static str = "_default";

#[derive(Clone, Copy)]
pub struct MemoryDocumentDef {
    pub name: &'static str,
    pub file_name: &'static str,
    pub title: &'static str,
    pub body: &'static str,
}

pub open spec fn doc_name(i: int) -> Seq<char> {
    if i == 0 {
        "project"@
    } else if i == 1 {
        "decisions"@
    } else if i == 2 {
        "todo"@
    } else {
        "session"@
    }
}

pub open spec fn doc_file(i: int) -> Seq<char> {
    doc_name(i) + ".md"@
}

pub open spec fn doc_title(i: int) -> Seq<char> {
    if i == 0 {
        "Project Memory"@
    } else if i == 1 {
        "Decisions"@
    } else if i == 2 {
        "Todo"@
    } else {
        "Session"@
    }
}

pub open spec fn doc_body(i: int) -> Seq<char> {
    if i == 0 {
        "Persistent notes about this project.\n"@
    } else if i == 1 {
        "Durable architectural and product decisions.\n"@
    } else if i == 2 {
        "- [ ] Capture project follow-up work here.\n"@
    } else {
        "Current session state and handoff notes.\n"@
    }
}

/// The `i`-th of the four documents: project, decisions, todo, session.
pub open spec fn is_doc(d: MemoryDocumentDef, i: int) -> bool {
    &&& d.name@ == doc_name(i)
    &&& d.file_name@ == doc_file(i)
    &&& d.title@ == doc_title(i)
    &&& d.body@ == doc_body(i)
}

fn doc_def_at(i: usize) -> (d: MemoryDocumentDef)
    requires
        i < 4,
    ensures
        is_doc(d, i as int),
{
    proof {
        reveal_strlit("project");
        reveal_strlit("decisions");
        reveal_strlit("todo");
        reveal_strlit("session");
        reveal_strlit(".md");
        reveal_strlit("project.md");
        reveal_strlit("decisions.md");
        reveal_strlit("todo.md");
        reveal_strlit("session.md");
    }
    let d = if i == 0 {
        MemoryDocumentDef {
            name: "project",
            file_name: "project.md",
            title: "Project Memory",
            body: "Persistent notes about this project.\n",
        }
    } else if i == 1 {
        MemoryDocumentDef {
            name: "decisions",
            file_name: "decisions.md",
            title: "Decisions",
            body: "Durable architectural and product decisions.\n",
        }
    } else if i == 2 {
        MemoryDocumentDef {
            name: "todo",
            file_name: "todo.md",
            title: "Todo",
            body: "- [ ] Capture project follow-up work here.\n",
        }
    } else {
        MemoryDocumentDef {
            name: "session",
            file_name: "session.md",
            title: "Session",
            body: "Current session state and handoff notes.\n",
        }
    };
    assert(d.file_name@ =~= doc_file(i as int));
    d
}

/// The four memory documents, in order.
pub fn memory_documents() -> (v: Vec<MemoryDocumentDef>)
    ensures
        v@.len() == 4,
        forall|i: int| 0 <= i < 4 ==> is_doc(#[trigger] v@[i], i),
{
    let mut v: Vec<MemoryDocumentDef> = Vec::new();
    let mut i: usize = 0;
    while i < 4
        invariant
            i <= 4,
            v@.len() == i,
            forall|k: int| 0 <= k < i ==> is_doc(#[trigger] v@[k], k),
        decreases 4 - i,
    {
        v.push(doc_def_at(i));
        i += 1;
    }
    v
}

/// `# {title}\n\n{body}`.
pub fn default_document_text(def: MemoryDocumentDef) -> (s: String)
    ensures
        s@ == "# "@ + def.title@ + "\n\n"@ + def.body@,
{
    let mut s = String::new();
    push_str(&mut s, "# ");
    push_str(&mut s, def.title);
    push_str(&mut s, "\n\n");
    push_str(&mut s, def.body);
    s
}

/// Document `i` is named `name`, by its name or its file name, ignoring
/// ASCII case.
pub open spec fn names_doc(i: int, name: Seq<char>) -> bool {
    lower_seq(doc_name(i)) == lower_seq(name) || lower_seq(doc_file(i)) == lower_seq(name)
}

/// The first document that `name` names, or -1.
pub open spec fn doc_index(name: Seq<char>) -> int {
    if names_doc(0, name) {
        0
    } else if names_doc(1, name) {
        1
    } else if names_doc(2, name) {
        2
    } else if names_doc(3, name) {
        3
    } else {
        -1
    }
}

/// The document that `name` names.
pub fn document_def(name: &str) -> (r: Option<MemoryDocumentDef>)
    ensures
        match r {
            Some(d) => doc_index(name@) >= 0 && is_doc(d, doc_index(name@)),
            None => doc_index(name@) == -1,
        },
{
    let n = chars_of(name);
    let mut i: usize = 0;
    while i < 4
        invariant
            i <= 4,
            n@ == name@,
            forall|k: int| 0 <= k < i ==> !names_doc(k, name@),
        decreases 4 - i,
    {
        let d = doc_def_at(i);
        if eq_ignore_ascii_case(chars_of(d.name).as_slice(), n.as_slice()) || eq_ignore_ascii_case(
            chars_of(d.file_name).as_slice(),
            n.as_slice(),
        ) {
            return Some(d);
        }
        i += 1;
    }
    None
}

/// `Unknown memory document: {document}. Use one of: …`.
pub open spec fn unknown_document_msg(document: Seq<char>) -> Seq<char> {
    "Unknown memory document: "@ + document + ". Use one of: project, decisions, todo, session"@
}

/// The document named by `document` (trimmed), or the error naming it.
pub fn resolve_document(document: &str) -> (r: Result<MemoryDocumentDef, String>)
    ensures
        match r {
            Ok(d) => doc_index(trim(document@)) >= 0 && is_doc(d, doc_index(trim(document@))),
            Err(e) => doc_index(trim(document@)) == -1 && e@ == unknown_document_msg(document@),
        },
{
    let t = str_trim(document);
    match document_def(t.as_str()) {
        Some(d) => Ok(d),
        None => {
            let mut e = String::new();
            push_str(&mut e, "Unknown memory document: ");
            push_str(&mut e, document);
            push_str(&mut e, ". Use one of: project, decisions, todo, session");
            Err(e)
        },
    }
}

// ---------------------------------------------------------------------------
// Editing documents
// ---------------------------------------------------------------------------

/// The document after appending `content`: a blank line, then a `## section`
/// heading unless no section (or `_default`) was given, then the content,
/// all with Unix line endings and a final newline.
pub open spec fn appended_md(existing: Seq<char>, content: Seq<char>, section: Option<Seq<char>>) -> Seq<char> {
    let text = normalized_md(existing);
    let c = normalized_md(content);
    let sec = trim(
        match section {
            Some(s) => s,
            None => "_default"@,
        },
    );
    let sep = if ends_with(text, "\n\n"@) {
        text
    } else {
        text.push('\n')
    };
    if sec.len() > 0 && sec != "_default"@ {
        sep + "## "@ + sec + "\n\n"@ + c
    } else {
        sep + c
    }
}

/// Appends `content` to the document text `existing`.
pub fn append_markdown(existing: &str, content: &str, section: Option<&str>) -> (s: String)
    ensures
        s@ == appended_md(existing@, content@, match section {
            Some(t) => Some(t@),
            None => None,
        }),
{
    let mut text = normalize_markdown(existing);
    let c = normalize_markdown(content);
    let sec = match section {
        Some(t) => str_trim(t),
        None => str_trim(DEFAULT_SECTION),
    };
    proof {
        reveal_strlit("_default");
        reveal_strlit("\n\n");
        reveal_strlit("## ");
    }
    if !str_ends_with(text.as_str(), "\n\n") {
        push_char(&mut text, '\n');
    }
    if !sec.as_str().is_empty() && !str_eq(sec.as_str(), DEFAULT_SECTION) {
        push_str(&mut text, "## ");
        push_str(&mut text, sec.as_str());
        push_str(&mut text, "\n\n");
    }
    push_str(&mut text, c.as_str());
    text
}

/// How an update writes the document.
pub open spec fn update_mode_of(mode: Option<Seq<char>>) -> Result<(Seq<char>, bool), Seq<char>> {
    let m = trim(
        match mode {
            Some(t) => t,
            None => "append"@,
        },
    );
    if m == "append"@ {
        Ok((m, true))
    } else if m == "overwrite"@ {
        Ok((m, false))
    } else {
        Err("mode must be either append or overwrite"@)
    }
}

/// The update mode (`append` by default) and whether it appends.
pub fn update_mode(mode: Option<&str>) -> (r: Result<(String, bool), String>)
    ensures
        match r {
            Ok((m, append)) => update_mode_of(match mode {
                Some(t) => Some(t@),
                None => None,
            }) == Ok::<(Seq<char>, bool), Seq<char>>((m@, append)),
            Err(e) => update_mode_of(match mode {
                Some(t) => Some(t@),
                None => None,
            }) == Err::<(Seq<char>, bool), Seq<char>>(e@),
        },
{
    let m = match mode {
        Some(t) => str_trim(t),
        None => str_trim("append"),
    };
    proof {
        reveal_strlit("append");
        reveal_strlit("overwrite");
        reveal_strlit("mode must be either append or overwrite");
    }
    if str_eq(m.as_str(), "append") {
        Ok((m, true))
    } else if str_eq(m.as_str(), "overwrite") {
        Ok((m, false))
    } else {
        Err(string_of(chars_of("mode must be either append or overwrite").as_slice()))
    }
}

/// The new text of a document: `content` appended to `existing`, or
/// replacing it.
pub fn next_document_text(append: bool, existing: &str, content: &str, section: Option<&str>) -> (s:
    String)
    ensures
        s@ == if append {
            appended_md(existing@, content@, match section {
                Some(t) => Some(t@),
                None => None,
            })
        } else {
            normalized_md(content@)
        },
{
    if append {
        append_markdown(existing, content, section)
    } else {
        normalize_markdown(content)
    }
}

// ---------------------------------------------------------------------------
// Session resume
// ---------------------------------------------------------------------------

/// A block of the session note: the trimmed text with a final newline, or
/// `_None recorded._`.
pub open spec fn block_md(text: Seq<char>) -> Seq<char> {
    let t = normalized_md(trim(text));
    if trim(t).len() == 0 {
        "_None recorded._\n"@
    } else {
        t
    }
}

pub fn markdown_block(text: &str) -> (s: String)
    ensures
        s@ == block_md(text@),
{
    let t = normalize_markdown(str_trim(text).as_str());
    if crate::text::is_blank(t.as_str()) {
        proof {
            reveal_strlit("_None recorded._\n");
        }
        string_of(chars_of("_None recorded._\n").as_slice())
    } else {
        t
    }
}

/// The trimmed items that are not blank.
pub open spec fn kept_items(items: Seq<Seq<char>>) -> Seq<Seq<char>>
    decreases items.len(),
{
    if items.len() == 0 {
        seq![]
    } else {
        let k = kept_items(items.drop_last());
        let t = trim(items.last());
        if t.len() == 0 {
            k
        } else {
            k.push(t)
        }
    }
}

/// A bullet per kept item, or `- None recorded.`.
pub open spec fn list_md(items: Seq<Seq<char>>) -> Seq<char> {
    let k = kept_items(items);
    if k.len() == 0 {
        "- None recorded.\n"@
    } else {
        bullets(k)
    }
}

/// The kept items are exactly the trimmed items that are not blank, in
/// their order: one per non-blank item, none for a blank one.
pub proof fn lemma_kept_items_are_nonblank_trimmed(items: Seq<Seq<char>>)
    ensures
        kept_items(items) == items.map_values(|s: Seq<char>| trim(s)).filter(|t: Seq<char>| t.len() > 0),
        kept_items(items).len() <= items.len(),
    decreases items.len(),
{
    reveal(Seq::filter);
    let f = |s: Seq<char>| trim(s);
    let nb = |t: Seq<char>| t.len() > 0;
    if items.len() > 0 {
        lemma_kept_items_are_nonblank_trimmed(items.drop_last());
        let m = items.map_values(f);
        assert(m.drop_last() =~= items.drop_last().map_values(f));
        assert(m.last() == trim(items.last()));
        assert(m.filter(nb) == if nb(m.last()) {
            m.drop_last().filter(nb).push(m.last())
        } else {
            m.drop_last().filter(nb)
        });
    } else {
        assert(items.map_values(f) =~= Seq::<Seq<char>>::empty());
    }
}

/// The files-changed list holds a bullet `- item` per non-blank item,
/// trimmed and in order, and says `- None recorded.` when there is none.
pub proof fn lemma_list_md_bullets(items: Seq<Seq<char>>)
    ensures
        ({
            let k = items.map_values(|s: Seq<char>| trim(s)).filter(|t: Seq<char>| t.len() > 0);
            list_md(items) == if k.len() == 0 {
                "- None recorded.\n"@
            } else {
                bullets(k)
            }
        }),
{
    lemma_kept_items_are_nonblank_trimmed(items);
}

pub fn markdown_list(items: &[String]) -> (s: String)
    ensures
        s@ == list_md(string_views(items@)),
{
    let ghost all = string_views(items@);
    let mut kept: Vec<String> = Vec::new();
    let mut i: usize = 0;
    assert(all.take(0) =~= Seq::<Seq<char>>::empty());
    assert(string_views(kept@) =~= Seq::<Seq<char>>::empty());
    while i < items.len()
        invariant
            i <= items@.len(),
            all == string_views(items@),
            string_views(kept@) == kept_items(all.take(i as int)),
        decreases items@.len() - i,
    {
        assert(all.take(i + 1).drop_last() =~= all.take(i as int));
        assert(all.take(i + 1).last() == items@[i as int]@);
        let t = str_trim(items[i].as_str());
        if !t.as_str().is_empty() {
            let ghost before = kept@;
            kept.push(t);
            assert(string_views(kept@) =~= string_views(before).push(kept@.last()@));
        }
        i += 1;
    }
    assert(all.take(items@.len() as int) =~= all);
    if kept.len() == 0 {
        proof {
            reveal_strlit("- None recorded.\n");
        }
        return string_of(chars_of("- None recorded.\n").as_slice());
    }
    let mut out = String::new();
    crate::text::push_bullets(&mut out, kept.as_slice());
    assert(out@ =~= bullets(string_views(kept@)));
    out
}

/// The resume's own sections: goal, files changed, verification results,
/// remaining work and resume prompt, each under its heading.
pub open spec fn resume_sections_md(
    goal: Seq<char>,
    files: Seq<Seq<char>>,
    results: Seq<char>,
    remaining: Seq<char>,
    prompt: Seq<char>,
) -> Seq<char> {
    "## Session goal\n\n"@ + block_md(goal) + "\n## Files changed\n\n"@ + list_md(files)
        + "\n## Verification results\n\n"@ + block_md(results) + "\n## Remaining work\n\n"@
        + block_md(remaining) + "\n## Resume prompt\n\n"@ + block_md(prompt)
}

/// The session note: its title, then the resume's sections.
pub open spec fn session_md(
    goal: Seq<char>,
    files: Seq<Seq<char>>,
    results: Seq<char>,
    remaining: Seq<char>,
    prompt: Seq<char>,
) -> Seq<char> {
    "# Session\n\n"@ + resume_sections_md(goal, files, results, remaining, prompt)
}

fn resume_sections_text(
    session_goal: &str,
    files_changed: &[String],
    verification_results: &str,
    remaining_work: &str,
    resume_prompt: &str,
) -> (s: String)
    ensures
        s@ == resume_sections_md(
            session_goal@,
            string_views(files_changed@),
            verification_results@,
            remaining_work@,
            resume_prompt@,
        ),
{
    let mut out = String::new();
    push_str(&mut out, "## Session goal\n\n");
    push_str(&mut out, markdown_block(session_goal).as_str());
    push_str(&mut out, "\n## Files changed\n\n");
    push_str(&mut out, markdown_list(files_changed).as_str());
    push_str(&mut out, "\n## Verification results\n\n");
    push_str(&mut out, markdown_block(verification_results).as_str());
    push_str(&mut out, "\n## Remaining work\n\n");
    push_str(&mut out, markdown_block(remaining_work).as_str());
    push_str(&mut out, "\n## Resume prompt\n\n");
    push_str(&mut out, markdown_block(resume_prompt).as_str());
    out
}

pub fn session_resume_text(
    session_goal: &str,
    files_changed: &[String],
    verification_results: &str,
    remaining_work: &str,
    resume_prompt: &str,
) -> (s: String)
    ensures
        s@ == session_md(
            session_goal@,
            string_views(files_changed@),
            verification_results@,
            remaining_work@,
            resume_prompt@,
        ),
{
    let mut out = String::new();
    push_str(&mut out, "# Session\n\n");
    let body = resume_sections_text(
        session_goal,
        files_changed,
        verification_results,
        remaining_work,
        resume_prompt,
    );
    push_str(&mut out, body.as_str());
    out
}

/// A `## ` heading that the resume itself writes.
pub open spec fn is_resume_heading(l: Seq<char>) -> bool {
    let t = trim(l);
    t == "## Session goal"@ || t == "## Files changed"@ || t == "## Verification results"@ || t
        == "## Remaining work"@ || t == "## Resume prompt"@
}

/// A line that carries no note of the user's: a blank line, or the
/// document's own title or intro line.
pub open spec fn is_filler_line(l: Seq<char>) -> bool {
    let t = trim(l);
    t.len() == 0 || t == "# Session"@ || t == "Current session state and handoff notes."@
}

/// Whether the lines after `l` stand outside the resume's sections, given
/// whether `l` itself was: a resume heading starts such a section, and the
/// next `# ` or `## ` heading ends it.
pub open spec fn outside_after(l: Seq<char>, keeping: bool) -> bool {
    if crate::text::starts_with(l, "## "@) {
        !is_resume_heading(l)
    } else if crate::text::starts_with(l, "# "@) {
        true
    } else {
        keeping
    }
}

/// The lines of `ls` that the user wrote outside the resume's sections, in
/// their order, fillers left out. `keeping` says whether the lines before
/// `ls` stood outside a resume section.
pub open spec fn note_lines(ls: Seq<Seq<char>>, keeping: bool) -> Seq<Seq<char>>
    decreases ls.len(),
{
    if ls.len() == 0 {
        seq![]
    } else {
        let l = ls[0];
        let k = outside_after(l, keeping);
        let rest = note_lines(ls.drop_first(), k);
        if k && !is_filler_line(l) {
            seq![l] + rest
        } else {
            rest
        }
    }
}

/// Each line followed by a line break.
pub open spec fn lines_md(ls: Seq<Seq<char>>) -> Seq<char>
    decreases ls.len(),
{
    if ls.len() == 0 {
        seq![]
    } else {
        lines_md(ls.drop_last()) + ls.last() + "\n"@
    }
}

/// The user's notes in the `existing` session document.
pub open spec fn session_notes(existing: Seq<char>) -> Seq<Seq<char>> {
    note_lines(crate::text::lines(existing), true)
}

/// The session document after a resume: the title, the user's notes of
/// the `existing` document with a blank line after them, then the resume's
/// sections.
pub open spec fn session_next_md(
    existing: Seq<char>,
    goal: Seq<char>,
    files: Seq<Seq<char>>,
    results: Seq<char>,
    remaining: Seq<char>,
    prompt: Seq<char>,
) -> Seq<char> {
    let notes = session_notes(existing);
    "# Session\n\n"@ + (if notes.len() > 0 {
        lines_md(notes) + "\n"@
    } else {
        seq![]
    }) + resume_sections_md(goal, files, results, remaining, prompt)
}

/// A block holds the given text trimmed, with a final line break, and
/// says `_None recorded._` for blank text.
pub proof fn lemma_block_md(text: Seq<char>)
    ensures
        trim(text).len() == 0 ==> block_md(text) == "_None recorded._\n"@,
        trim(text).len() > 0 && !trim(text).contains('\r') ==> block_md(text) == trim(text).push('\n'),
{
    let x = trim(text);
    crate::text::lemma_trim_shape(text);
    if x.len() == 0 {
        assert(crate::markdown::unix_newlines(x) =~= Seq::<char>::empty());
        assert(normalized_md(x) =~= Seq::<char>::empty().push('\n'));
        crate::text::lemma_trim_push_ws(Seq::<char>::empty(), '\n');
        crate::text::lemma_trim_of_trimmed(Seq::<char>::empty());
    } else if !x.contains('\r') {
        crate::markdown::lemma_unix_newlines_keeps(x);
        assert(crate::text::is_ws('\n'));
        assert(x.last() != '\n');
        assert(normalized_md(x) == x.push('\n'));
        crate::text::lemma_trim_push_ws(x, '\n');
        crate::text::lemma_trim_of_trimmed(x);
    }
}

/// Lines that are the user's note: not blank, and not the title or the
/// intro line of the session document.
pub open spec fn user_line(l: Seq<char>) -> bool {
    let t = trim(l);
    t.len() > 0 && t != "# Session"@ && t != "Current session state and handoff notes."@
}

/// In lines without a `## ` heading, every line the user wrote is a note,
/// in order.
proof fn lemma_note_lines_without_subheadings(ls: Seq<Seq<char>>)
    requires
        forall|i: int| 0 <= i < ls.len() ==> !crate::text::starts_with(#[trigger] ls[i], "## "@),
    ensures
        note_lines(ls, true) == ls.filter(|l: Seq<char>| user_line(l)),
    decreases ls.len(),
{
    if ls.len() > 0 {
        let rest = ls.drop_first();
        assert forall|i: int| 0 <= i < rest.len() implies !crate::text::starts_with(#[trigger] rest[i], "## "@) by {
            assert(rest[i] == ls[i + 1]);
        }
        lemma_note_lines_without_subheadings(rest);
        assert(ls =~= seq![ls[0]] + rest);
        rest.lemma_filter_prepend(ls[0], |l: Seq<char>| user_line(l));
        assert(!crate::text::starts_with(ls[0], "## "@));
    } else {
        reveal(Seq::filter);
    }
}

/// A session document without `## ` headings keeps every line the user
/// wrote, in order, as notes.
pub proof fn lemma_session_notes_without_subheadings(existing: Seq<char>)
    requires
        forall|i: int|
            0 <= i < crate::text::lines(existing).len() ==> !crate::text::starts_with(
                #[trigger] crate::text::lines(existing)[i],
                "## "@,
            ),
    ensures
        session_notes(existing) == crate::text::lines(existing).filter(|l: Seq<char>| user_line(l)),
{
    lemma_note_lines_without_subheadings(crate::text::lines(existing));
}

/// No note is one of the resume's own headings, whatever the document.
pub proof fn lemma_notes_skip_resume_headings(ls: Seq<Seq<char>>, keeping: bool)
    ensures
        forall|j: int|
            0 <= j < note_lines(ls, keeping).len() ==> !(crate::text::starts_with(
                #[trigger] note_lines(ls, keeping)[j],
                "## "@,
            ) && (trim(note_lines(ls, keeping)[j]) == "## Session goal"@ || trim(note_lines(ls, keeping)[j])
                == "## Files changed"@ || trim(note_lines(ls, keeping)[j]) == "## Verification results"@
                || trim(note_lines(ls, keeping)[j]) == "## Remaining work"@ || trim(
                note_lines(ls, keeping)[j],
            ) == "## Resume prompt"@)),
    decreases ls.len(),
{
    if ls.len() > 0 {
        let l = ls[0];
        let k = outside_after(l, keeping);
        lemma_notes_skip_resume_headings(ls.drop_first(), k);
        let rest = note_lines(ls.drop_first(), k);
        if k && !is_filler_line(l) {
            assert forall|j: int| 0 <= j < note_lines(ls, keeping).len() implies !(crate::text::starts_with(
                #[trigger] note_lines(ls, keeping)[j],
                "## "@,
            ) && (trim(note_lines(ls, keeping)[j]) == "## Session goal"@ || trim(note_lines(ls, keeping)[j])
                == "## Files changed"@ || trim(note_lines(ls, keeping)[j]) == "## Verification results"@
                || trim(note_lines(ls, keeping)[j]) == "## Remaining work"@ || trim(
                note_lines(ls, keeping)[j],
            ) == "## Resume prompt"@)) by {
                if j > 0 {
                    assert(note_lines(ls, keeping)[j] == rest[j - 1]);
                }
            }
        }
    }
}

fn is_resume_heading_exec(l: &[char]) -> (b: bool)
    ensures
        b == is_resume_heading(l@),
{
    let t = string_of(crate::text::trim_chars(l).as_slice());
    str_eq(t.as_str(), "## Session goal") || str_eq(t.as_str(), "## Files changed") || str_eq(
        t.as_str(),
        "## Verification results",
    ) || str_eq(t.as_str(), "## Remaining work") || str_eq(t.as_str(), "## Resume prompt")
}

fn is_filler_line_exec(l: &[char]) -> (b: bool)
    ensures
        b == is_filler_line(l@),
{
    let t = string_of(crate::text::trim_chars(l).as_slice());
    t.as_str().is_empty() || str_eq(t.as_str(), "# Session") || str_eq(
        t.as_str(),
        "Current session state and handoff notes.",
    )
}

fn outside_after_exec(l: &[char], keeping: bool) -> (k: bool)
    ensures
        k == outside_after(l@, keeping),
{
    let sub = chars_of("## ");
    let top = chars_of("# ");
    if crate::text::starts_with_chars(l, sub.as_slice()) {
        !is_resume_heading_exec(l)
    } else if crate::text::starts_with_chars(l, top.as_slice()) {
        true
    } else {
        keeping
    }
}

/// The session document to write for a resume: the title, the user's notes
/// of the `existing` document, then the resume's sections.
pub fn session_resume_next_text(
    existing: &str,
    session_goal: &str,
    files_changed: &[String],
    verification_results: &str,
    remaining_work: &str,
    resume_prompt: &str,
) -> (s: String)
    ensures
        s@ == session_next_md(
            existing@,
            session_goal@,
            string_views(files_changed@),
            verification_results@,
            remaining_work@,
            resume_prompt@,
        ),
{
    let ls = crate::text::lines_of(chars_of(existing).as_slice());
    let ghost all = ls@.map_values(|l: Vec<char>| l@);
    let mut notes = String::new();
    let mut count: usize = 0;
    let mut keeping = true;
    let mut i: usize = 0;
    let ghost mut kept: Seq<Seq<char>> = seq![];
    proof {
        reveal_strlit("\n");
        assert(all.skip(0) =~= all);
    }
    while i < ls.len()
        invariant
            i <= ls@.len(),
            all == ls@.map_values(|l: Vec<char>| l@),
            all == crate::text::lines(existing@),
            note_lines(all, true) == kept + note_lines(all.skip(i as int), keeping),
            notes@ == lines_md(kept),
            count == kept.len(),
            count <= i,
        decreases ls@.len() - i,
    {
        let l = &ls[i];
        assert(all[i as int] == l@);
        let k = outside_after_exec(l.as_slice(), keeping);
        proof {
            let rest = all.skip(i as int);
            assert(rest[0] == l@);
            assert(rest.drop_first() =~= all.skip(i + 1));
        }
        if k && !is_filler_line_exec(l.as_slice()) {
            crate::text::push_chars(&mut notes, l.as_slice());
            push_str(&mut notes, "\n");
            proof {
                assert(kept.push(l@).drop_last() =~= kept);
                assert(kept + (seq![l@] + note_lines(all.skip(i + 1), k)) =~= kept.push(l@)
                    + note_lines(all.skip(i + 1), k));
                kept = kept.push(l@);
            }
            count = count + 1;
        }
        keeping = k;
        i += 1;
    }
    proof {
        assert(all.skip(ls@.len() as int) =~= Seq::<Seq<char>>::empty());
        assert(kept + Seq::<Seq<char>>::empty() =~= kept);
    }
    let mut out = String::new();
    push_str(&mut out, "# Session\n\n");
    if count > 0 {
        push_str(&mut out, notes.as_str());
        push_str(&mut out, "\n");
    }
    let body = resume_sections_text(
        session_goal,
        files_changed,
        verification_results,
        remaining_work,
        resume_prompt,
    );
    push_str(&mut out, body.as_str());
    out
}

// ---------------------------------------------------------------------------
// Outputs
// ---------------------------------------------------------------------------

pub struct MemoryDocument {
    pub name: String,
    pub path: String,
    pub text: String,
}

pub struct ProjectMemoryOutput {
    pub root: String,
    pub documents: Vec<MemoryDocument>,
}

pub struct ProjectMemoryUpdateOutput {
    pub document: MemoryDocument,
    pub mode: String,
    pub bytes: usize,
}

pub struct SessionResumeOutput {
    pub document: MemoryDocument,
    pub session_goal: String,
    pub files_changed: Vec<String>,
    pub verification_results: String,
    pub remaining_work: String,
    pub resume_prompt: String,
}

/// A document under its name and path, its text ending with a newline.
pub open spec fn document_md(d: MemoryDocument) -> Seq<char> {
    "\n## "@ + d.name@ + "\npath: "@ + d.path@ + "\n\n"@ + d.text@ + (if d.text@.len() > 0
        && d.text@.last() == '\n' {
        seq![]
    } else {
        seq!['\n']
    })
}

pub open spec fn documents_md(v: Seq<MemoryDocument>) -> Seq<char>
    decreases v.len(),
{
    if v.len() == 0 {
        seq![]
    } else {
        documents_md(v.drop_last()) + document_md(v.last())
    }
}

fn push_document(out: &mut String, d: &MemoryDocument)
    ensures
        final(out)@ == old(out)@ + document_md(*d),
{
    push_str(out, "\n## ");
    push_str(out, d.name.as_str());
    push_str(out, "\npath: ");
    push_str(out, d.path.as_str());
    push_str(out, "\n\n");
    push_str(out, d.text.as_str());
    let v = chars_of(d.text.as_str());
    if v.len() == 0 || v[v.len() - 1] != '\n' {
        push_char(out, '\n');
    }
    proof {
        reveal_strlit("\n## ");
        reveal_strlit("\npath: ");
        reveal_strlit("\n\n");
    }
    assert(final(out)@ =~= old(out)@ + document_md(*d));
}

impl ProjectMemoryOutput {
    pub open spec fn rendered(self) -> Seq<char> {
        "root: "@ + self.root@ + "\ndocuments: "@ + decimal(self.documents@.len()) + "\n"@
            + documents_md(self.documents@)
    }

    /// The root and document count, then each document with its text.
    pub fn render_text(&self) -> (s: String)
        ensures
            s@ == self.rendered(),
    {
        let mut out = String::new();
        push_str(&mut out, "root: ");
        push_str(&mut out, self.root.as_str());
        push_str(&mut out, "\ndocuments: ");
        push_str(&mut out, decimal_u64(self.documents.len() as u64).as_str());
        push_str(&mut out, "\n");
        let ghost head = out@;
        let ghost all = self.documents@;
        let mut i: usize = 0;
        assert(all.take(0) =~= Seq::<MemoryDocument>::empty());
        assert(out@ =~= head + documents_md(all.take(0)));
        while i < self.documents.len()
            invariant
                i <= all.len(),
                all == self.documents@,
                out@ == head + documents_md(all.take(i as int)),
            decreases all.len() - i,
        {
            assert(all.take(i + 1).drop_last() =~= all.take(i as int));
            assert(all.take(i + 1).last() == all[i as int]);
            push_document(&mut out, &self.documents[i]);
            assert(out@ =~= head + documents_md(all.take(i + 1)));
            i += 1;
        }
        assert(all.take(all.len() as int) =~= all);
        proof {
            reveal_strlit("root: ");
            reveal_strlit("\ndocuments: ");
            reveal_strlit("\n");
        }
        assert(out@ =~= self.rendered());
        out
    }
}

impl ProjectMemoryUpdateOutput {
    /// `updated`, `path`, `mode` and `bytes` lines.
    pub fn render_text(&self) -> (s: String)
        ensures
            s@ == "updated: "@ + self.document.name@ + "\npath: "@ + self.document.path@
                + "\nmode: "@ + self.mode@ + "\nbytes: "@ + decimal(self.bytes as nat),
    {
        let mut out = String::new();
        push_str(&mut out, "updated: ");
        push_str(&mut out, self.document.name.as_str());
        push_str(&mut out, "\npath: ");
        push_str(&mut out, self.document.path.as_str());
        push_str(&mut out, "\nmode: ");
        push_str(&mut out, self.mode.as_str());
        push_str(&mut out, "\nbytes: ");
        push_str(&mut out, decimal_u64(self.bytes as u64).as_str());
        out
    }
}

impl SessionResumeOutput {
    /// `updated` and `path` lines, and the list of sections written.
    pub fn render_text(&self) -> (s: String)
        ensures
            s@ == "updated: "@ + self.document.name@ + "\npath: "@ + self.document.path@
                + "\nsections: session goal, files changed, verification results, remaining work, resume prompt"@,
    {
        let mut out = String::new();
        push_str(&mut out, "updated: ");
        push_str(&mut out, self.document.name.as_str());
        push_str(&mut out, "\npath: ");
        push_str(&mut out, self.document.path.as_str());
        push_str(
            &mut out,
            "\nsections: session goal, files changed, verification results, remaining work, resume prompt",
        );
        out
    }
}

/// The output of an update of `document` in `mode` that wrote `text`.
pub fn update_output(document: MemoryDocument, mode: String, text: &str) -> (o:
    ProjectMemoryUpdateOutput)
    ensures
        o.document == document,
        o.mode == mode,
        o.bytes == vstd::utf8::encode_utf8(text@).len() as usize,
{
    ProjectMemoryUpdateOutput { document, mode, bytes: text.len() }
}

/// The output of writing the session note: the fields as given, trimmed.
pub fn session_resume_output(
    document: MemoryDocument,
    session_goal: &str,
    files_changed: Vec<String>,
    verification_results: &str,
    remaining_work: &str,
    resume_prompt: &str,
) -> (o: SessionResumeOutput)
    ensures
        o.document == document,
        o.session_goal@ == trim(session_goal@),
        o.files_changed@ == files_changed@,
        o.verification_results@ == trim(verification_results@),
        o.remaining_work@ == trim(remaining_work@),
        o.resume_prompt@ == trim(resume_prompt@),
{
    SessionResumeOutput {
        document,
        session_goal: str_trim(session_goal),
        files_changed,
        verification_results: str_trim(verification_results),
        remaining_work: str_trim(remaining_work),
        resume_prompt: str_trim(resume_prompt),
    }
}

} // verus!
