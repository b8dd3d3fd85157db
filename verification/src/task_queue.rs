//! The task list kept in `.catdesk/todo.md`: `- [ ] T-0001 text` lines
//! with stable ids and a marker holding the next id.
use vstd::prelude::*;
use crate::text::string_views;
use crate::number::{decimal, decimal_u64, parse_uint, parse_uint_exec};
use crate::text::{
    lemma_lines_no_break, lemma_lines_push_line, lemma_trim_of_trimmed, lemma_trim_push_ws,
    lemma_trim_shape, lemma_trim_start_at, lemma_trim_start_push, lemma_trim_start_shape, strip_cr,
    chars_of, ends_with, first_where, is_ascii_digit, is_ascii_digit_char, is_ws, is_ws_char,
    lemma_first_where, lines, lines_of, push_chars, push_str, slice_chars,
    starts_with, starts_with_chars, string_of, trim, trim_bounds, trim_chars, trim_start,
};

verus! {

/// Where the task list lives, below the workspace root.
pub const CATDESK_DIR: &'static str = ".catdesk";

pub const TODO_FILE: &'static str = "todo.md";

/// The list written when there is none yet.
pub const DEFAULT_TODO_TEXT: &'static str =
    "# Todo\n\n<!-- catdesk-next-task-id: 1 -->\n\nUse task_queue_add to record follow-up work.\n";

pub open spec fn marker_prefix() -> Seq<char> {
    "<!-- catdesk-next-task-id: "@
}

#[derive(Clone)]
pub struct TaskItem {
    pub id: String,
    pub done: bool,
    pub text: String,
}

/// A task as values: id, done, text.
pub type TaskV = (Seq<char>, bool, Seq<char>);

impl View for TaskItem {
    type V = TaskV;

    open spec fn view(&self) -> TaskV {
        (self.id@, self.done, self.text@)
    }
}

pub open spec fn task_views(v: Seq<TaskItem>) -> Seq<TaskV> {
    v.map_values(|t: TaskItem| t@)
}

pub struct TaskQueueOutput {
    pub path: String,
    pub total: usize,
    pub open: usize,
    pub done: usize,
    pub tasks: Vec<TaskItem>,
    pub text: String,
}

// ---------------------------------------------------------------------------
// Lines
// ---------------------------------------------------------------------------

/// A checkbox line: after leading whitespace, `- [ ] `, `* [ ] `, or the
/// same with `x` or `X`; whether it is checked, and the rest.
pub open spec fn checkbox(line: Seq<char>) -> Option<(bool, Seq<char>)> {
    let t = trim_start(line);
    if starts_with(t, "- [ ] "@) || starts_with(t, "* [ ] "@) {
        Some((false, t.skip(6)))
    } else if starts_with(t, "- [x] "@) || starts_with(t, "- [X] "@) || starts_with(t, "* [x] "@)
        || starts_with(t, "* [X] "@) {
        Some((true, t.skip(6)))
    } else {
        None
    }
}

/// Each of the six prefixes `- [ ] `, `* [ ] `, `- [x] `, `- [X] `,
/// `* [x] `, `* [X] ` after leading whitespace starts a checkbox line, done
/// exactly when the box holds `x` or `X`, its rest what follows the prefix;
/// no other line is one.
pub proof fn lemma_checkbox_prefixes(line: Seq<char>)
    ensures
        ({
            let t = trim_start(line);
            let open = starts_with(t, "- [ ] "@) || starts_with(t, "* [ ] "@);
            let done = starts_with(t, "- [x] "@) || starts_with(t, "- [X] "@) || starts_with(
                t,
                "* [x] "@,
            ) || starts_with(t, "* [X] "@);
            &&& open ==> checkbox(line) == Some((false, t.skip(6)))
            &&& done ==> checkbox(line) == Some((true, t.skip(6)))
            &&& !open && !done ==> checkbox(line) is None
        }),
{
    reveal_strlit("- [ ] ");
    reveal_strlit("* [ ] ");
    reveal_strlit("- [x] ");
    reveal_strlit("- [X] ");
    reveal_strlit("* [x] ");
    reveal_strlit("* [X] ");
    let t = trim_start(line);
    if starts_with(t, "- [ ] "@) || starts_with(t, "* [ ] "@) {
        assert(!(starts_with(t, "- [x] "@) || starts_with(t, "- [X] "@) || starts_with(t, "* [x] "@)
            || starts_with(t, "* [X] "@))) by {
            assert(t.take(6)[3] == t[3]);
        }
    }
}

/// `T-` and four ASCII digits.
pub open spec fn is_task_id(id: Seq<char>) -> bool {
    &&& id.len() == 6
    &&& id[0] == 'T'
    &&& id[1] == '-'
    &&& forall|i: int| 2 <= i < 6 ==> is_ascii_digit(#[trigger] id[i])
}

/// A task payload `ID text`: the id runs to the first whitespace, the text
/// is what follows, trimmed; both must be there and the id valid.
pub open spec fn payload(p: Seq<char>) -> Option<(Seq<char>, Seq<char>)> {
    let t = trim(p);
    let k = first_where(t, |c: char| is_ws(c));
    let id = t.take(k as int);
    let text = if k < t.len() {
        trim(t.skip(k as int + 1))
    } else {
        seq![]
    };
    if is_task_id(id) && text.len() > 0 {
        Some((id, text))
    } else {
        None
    }
}

/// The task a line holds, if any.
pub open spec fn task_of_line(line: Seq<char>) -> Option<TaskV> {
    match checkbox(line) {
        Some((done, p)) => match payload(p) {
            Some((id, text)) => Some((id, done, text)),
            None => None,
        },
        None => None,
    }
}

pub open spec fn task_ids(ts: Seq<TaskV>) -> Seq<Seq<char>> {
    ts.map_values(|t: TaskV| t.0)
}

/// The tasks of the lines in order, or the first id that repeats.
pub open spec fn tasks_of(ls: Seq<Seq<char>>) -> Result<Seq<TaskV>, Seq<char>>
    decreases ls.len(),
{
    if ls.len() == 0 {
        Ok(seq![])
    } else {
        match tasks_of(ls.drop_last()) {
            Err(id) => Err(id),
            Ok(ts) => match task_of_line(ls.last()) {
                None => Ok(ts),
                Some(t) => if task_ids(ts).contains(t.0) {
                    Err(t.0)
                } else {
                    Ok(ts.push(t))
                },
            },
        }
    }
}

pub open spec fn duplicate_msg(id: Seq<char>) -> Seq<char> {
    "Duplicate task ID found in .catdesk/todo.md: "@ + id
}

fn checkbox_chars(line: &[char]) -> (r: Option<(bool, Vec<char>)>)
    ensures
        match r {
            Some((done, rest)) => checkbox(line@) == Some((done, rest@)),
            None => checkbox(line@) is None,
        },
{
    let (i, _) = trim_bounds(line);
    let t = slice_chars(line, i, line.len());
    assert(t@ == trim_start(line@));
    let rest = slice_chars(t.as_slice(), if t.len() >= 6 { 6 } else { t.len() }, t.len());
    let unchecked1 = chars_of("- [ ] ");
    let unchecked2 = chars_of("* [ ] ");
    let checked1 = chars_of("- [x] ");
    let checked2 = chars_of("- [X] ");
    let checked3 = chars_of("* [x] ");
    let checked4 = chars_of("* [X] ");
    proof {
        reveal_strlit("- [ ] ");
        reveal_strlit("* [ ] ");
        reveal_strlit("- [x] ");
        reveal_strlit("- [X] ");
        reveal_strlit("* [x] ");
        reveal_strlit("* [X] ");
    }
    if starts_with_chars(t.as_slice(), unchecked1.as_slice()) || starts_with_chars(
        t.as_slice(),
        unchecked2.as_slice(),
    ) {
        assert(rest@ =~= t@.skip(6));
        Some((false, rest))
    } else if starts_with_chars(t.as_slice(), checked1.as_slice()) || starts_with_chars(
        t.as_slice(),
        checked2.as_slice(),
    ) || starts_with_chars(t.as_slice(), checked3.as_slice()) || starts_with_chars(
        t.as_slice(),
        checked4.as_slice(),
    ) {
        assert(rest@ =~= t@.skip(6));
        Some((true, rest))
    } else {
        None
    }
}

/// `parse_checkbox_line`: whether a checkbox line is checked, and its
/// payload.
pub fn parse_checkbox_line(line: &str) -> (r: Option<(bool, String)>)
    ensures
        match r {
            Some((done, rest)) => checkbox(line@) == Some((done, rest@)),
            None => checkbox(line@) is None,
        },
{
    match checkbox_chars(chars_of(line).as_slice()) {
        Some((done, rest)) => Some((done, string_of(rest.as_slice()))),
        None => None,
    }
}

fn task_id_chars(id: &[char]) -> (b: bool)
    ensures
        b == is_task_id(id@),
{
    if id.len() != 6 || id[0] != 'T' || id[1] != '-' {
        return false;
    }
    let mut i: usize = 2;
    while i < 6
        invariant
            2 <= i <= 6,
            id@.len() == 6,
            forall|k: int| 2 <= k < i ==> is_ascii_digit(#[trigger] id@[k]),
        decreases 6 - i,
    {
        if !is_ascii_digit_char(id[i]) {
            return false;
        }
        i += 1;
    }
    true
}

/// `T-` followed by four ASCII digits.
pub fn valid_task_id(id: &str) -> (b: bool)
    ensures
        b == is_task_id(id@),
{
    task_id_chars(chars_of(id).as_slice())
}

fn payload_chars(p: &[char]) -> (r: Option<(Vec<char>, Vec<char>)>)
    ensures
        match r {
            Some((id, text)) => payload(p@) == Some((id@, text@)),
            None => payload(p@) is None,
        },
{
    let t = trim_chars(p);
    let mut k: usize = 0;
    while k < t.len() && !is_ws_char(t[k])
        invariant
            k <= t@.len(),
            forall|j: int| 0 <= j < k ==> !is_ws(t@[j]),
        decreases t@.len() - k,
    {
        k += 1;
    }
    proof {
        lemma_first_where(t@, |c: char| is_ws(c), k as int);
    }
    let id = slice_chars(t.as_slice(), 0, k);
    assert(id@ =~= t@.take(k as int));
    let text = if k < t.len() {
        let rest = slice_chars(t.as_slice(), k + 1, t.len());
        assert(rest@ =~= t@.skip(k + 1));
        trim_chars(rest.as_slice())
    } else {
        Vec::new()
    };
    if task_id_chars(id.as_slice()) && text.len() > 0 {
        Some((id, text))
    } else {
        None
    }
}

/// `parse_task_payload`: the id and text of `ID text`.
pub fn parse_task_payload(p: &str) -> (r: Option<(String, String)>)
    ensures
        match r {
            Some((id, text)) => payload(p@) == Some((id@, text@)),
            None => payload(p@) is None,
        },
{
    match payload_chars(chars_of(p).as_slice()) {
        Some((id, text)) => Some((string_of(id.as_slice()), string_of(text.as_slice()))),
        None => None,
    }
}

fn contains_id(tasks: &Vec<TaskItem>, id: &[char]) -> (b: bool)
    ensures
        b == task_ids(task_views(tasks@)).contains(id@),
{
    let ghost ids = task_ids(task_views(tasks@));
    let mut i: usize = 0;
    while i < tasks.len()
        invariant
            i <= tasks@.len(),
            ids == task_ids(task_views(tasks@)),
            forall|k: int| 0 <= k < i ==> ids[k] != id@,
        decreases tasks@.len() - i,
    {
        assert(ids[i as int] == tasks@[i as int].id@);
        if crate::text::chars_eq(chars_of(tasks[i].id.as_str()).as_slice(), id) {
            return true;
        }
        i += 1;
    }
    false
}

/// The tasks of `text`, or the duplicate-id error.
pub fn parse_tasks(text: &str) -> (r: Result<Vec<TaskItem>, String>)
    ensures
        match r {
            Ok(v) => tasks_of(lines(text@)) == Ok::<Seq<TaskV>, Seq<char>>(task_views(v@)),
            Err(e) => exists|id: Seq<char>|
                tasks_of(lines(text@)) == Err::<Seq<TaskV>, Seq<char>>(id) && e@ == duplicate_msg(id),
        },
{
    let ls = lines_of(chars_of(text).as_slice());
    let ghost all = ls@.map_values(|l: Vec<char>| l@);
    let mut tasks: Vec<TaskItem> = Vec::new();
    let mut i: usize = 0;
    assert(all.take(0) =~= Seq::<Seq<char>>::empty());
    assert(task_views(tasks@) =~= Seq::<TaskV>::empty());
    while i < ls.len()
        invariant
            i <= ls@.len(),
            all == ls@.map_values(|l: Vec<char>| l@),
            all == lines(text@),
            tasks_of(all.take(i as int)) == Ok::<Seq<TaskV>, Seq<char>>(task_views(tasks@)),
        decreases ls@.len() - i,
    {
        let ghost pre = all.take(i as int);
        assert(all.take(i + 1).drop_last() =~= pre);
        assert(all.take(i + 1).last() == ls@[i as int]@);
        match checkbox_chars(ls[i].as_slice()) {
            Some((done, p)) => match payload_chars(p.as_slice()) {
                Some((id, body)) => {
                    if contains_id(&tasks, id.as_slice()) {
                        let mut e = String::new();
                        push_str(&mut e, "Duplicate task ID found in .catdesk/todo.md: ");
                        push_chars(&mut e, id.as_slice());
                        proof {
                            assert(tasks_of(all.take(i + 1)) == Err::<Seq<TaskV>, Seq<char>>(id@));
                            assert(tasks_of(all) == Err::<Seq<TaskV>, Seq<char>>(id@)) by {
                                lemma_tasks_of_err_sticks(all, i + 1);
                            }
                            reveal_strlit("Duplicate task ID found in .catdesk/todo.md: ");
                            assert(e@ == duplicate_msg(id@));
                        }
                        return Err(e);
                    }
                    let item = TaskItem {
                        id: string_of(id.as_slice()),
                        done,
                        text: string_of(body.as_slice()),
                    };
                    let ghost before = tasks@;
                    tasks.push(item);
                    assert(task_views(tasks@) =~= task_views(before).push(item@));
                },
                None => {},
            },
            None => {},
        }
        i += 1;
    }
    assert(all.take(ls@.len() as int) =~= all);
    Ok(tasks)
}

/// Once a duplicate is found, reading more lines keeps the error.
pub proof fn lemma_tasks_of_err_sticks(ls: Seq<Seq<char>>, n: int)
    requires
        0 <= n <= ls.len(),
        tasks_of(ls.take(n)) is Err,
    ensures
        tasks_of(ls) == tasks_of(ls.take(n)),
    decreases ls.len() - n,
{
    if n < ls.len() {
        assert(ls.take(n + 1).drop_last() =~= ls.take(n));
        lemma_tasks_of_err_sticks(ls, n + 1);
    } else {
        assert(ls.take(n) =~= ls);
    }
}

// ---------------------------------------------------------------------------
// Task numbers and the next-id marker
// ---------------------------------------------------------------------------

/// The number of a `T-…` id, read as a `u32`.
pub open spec fn task_number(id: Seq<char>) -> Option<nat> {
    if starts_with(id, "T-"@) {
        match parse_uint(id.skip(2), 10, 0xffff_ffff) {
            Ok(n) => Some(n),
            Err(_) => None,
        }
    } else {
        None
    }
}

/// The largest task number, 0 without any.
pub open spec fn max_number(ts: Seq<TaskV>) -> nat
    decreases ts.len(),
{
    if ts.len() == 0 {
        0
    } else {
        let m = max_number(ts.drop_last());
        match task_number(ts.last().0) {
            Some(n) => if n > m {
                n
            } else {
                m
            },
            None => m,
        }
    }
}

fn task_number_exec(id: &str) -> (r: Option<u32>)
    ensures
        match r {
            Some(n) => task_number(id@) == Some(n as nat),
            None => task_number(id@) is None,
        },
{
    let v = chars_of(id);
    let p = chars_of("T-");
    proof {
        reveal_strlit("T-");
    }
    if !starts_with_chars(v.as_slice(), p.as_slice()) {
        return None;
    }
    let digits = slice_chars(v.as_slice(), 2, v.len());
    assert(digits@ =~= id@.skip(2));
    match parse_uint_exec(digits.as_slice(), 10, 0xffff_ffff) {
        Ok(n) => {
            proof {
                crate::number::lemma_parse_uint_bound(digits@, 10, 0xffff_ffff);
            }
            Some(n as u32)
        },
        Err(_) => None,
    }
}

/// The largest task number.
pub fn max_task_number(tasks: &[TaskItem]) -> (n: u32)
    ensures
        n == max_number(task_views(tasks@)),
{
    let ghost tv = task_views(tasks@);
    let mut m: u32 = 0;
    let mut i: usize = 0;
    assert(tv.take(0) =~= Seq::<TaskV>::empty());
    while i < tasks.len()
        invariant
            i <= tasks@.len(),
            tv == task_views(tasks@),
            m == max_number(tv.take(i as int)),
        decreases tasks@.len() - i,
    {
        assert(tv.take(i + 1).drop_last() =~= tv.take(i as int));
        assert(tv.take(i + 1).last() == tasks@[i as int]@);
        match task_number_exec(tasks[i].id.as_str()) {
            Some(n) => {
                if n > m {
                    m = n;
                }
            },
            None => {},
        }
        i += 1;
    }
    assert(tv.take(tasks@.len() as int) =~= tv);
    m
}

/// The number a marker line `<!-- catdesk-next-task-id: N -->` holds.
pub open spec fn marker_number(line: Seq<char>) -> Option<nat> {
    let t = trim(line);
    if starts_with(t, marker_prefix()) {
        let r = t.skip(marker_prefix().len() as int);
        if ends_with(r, "-->"@) {
            match parse_uint(trim(r.take(r.len() - 3)), 10, 0xffff_ffff) {
                Ok(n) => Some(n),
                Err(_) => None,
            }
        } else {
            None
        }
    } else {
        None
    }
}

/// The number of the first marker line that holds one.
pub open spec fn first_marker(ls: Seq<Seq<char>>) -> Option<nat>
    decreases ls.len(),
{
    if ls.len() == 0 {
        None
    } else {
        match marker_number(ls[0]) {
            Some(n) => Some(n),
            None => first_marker(ls.drop_first()),
        }
    }
}

fn marker_number_exec(line: &[char]) -> (r: Option<u32>)
    ensures
        match r {
            Some(n) => marker_number(line@) == Some(n as nat),
            None => marker_number(line@) is None,
        },
{
    let t = trim_chars(line);
    let prefix = chars_of("<!-- catdesk-next-task-id: ");
    let close = chars_of("-->");
    proof {
        reveal_strlit("<!-- catdesk-next-task-id: ");
        reveal_strlit("-->");
    }
    if !starts_with_chars(t.as_slice(), prefix.as_slice()) {
        return None;
    }
    let r = slice_chars(t.as_slice(), prefix.len(), t.len());
    assert(r@ =~= t@.skip(marker_prefix().len() as int));
    if !crate::text::ends_with_chars(r.as_slice(), close.as_slice()) {
        return None;
    }
    let inner = slice_chars(r.as_slice(), 0, r.len() - 3);
    assert(inner@ =~= r@.take(r@.len() - 3));
    let digits = trim_chars(inner.as_slice());
    match parse_uint_exec(digits.as_slice(), 10, 0xffff_ffff) {
        Ok(n) => {
            proof {
                crate::number::lemma_parse_uint_bound(digits@, 10, 0xffff_ffff);
            }
            Some(n as u32)
        },
        Err(_) => None,
    }
}

/// The next task number recorded by the first marker line.
pub fn next_task_number_from_marker(text: &str) -> (r: Option<u32>)
    ensures
        match r {
            Some(n) => first_marker(lines(text@)) == Some(n as nat),
            None => first_marker(lines(text@)) is None,
        },
{
    let ls = lines_of(chars_of(text).as_slice());
    let ghost all = ls@.map_values(|l: Vec<char>| l@);
    let mut i: usize = 0;
    assert(all.skip(0) =~= all);
    while i < ls.len()
        invariant
            i <= ls@.len(),
            all == ls@.map_values(|l: Vec<char>| l@),
            all == lines(text@),
            first_marker(all) == first_marker(all.skip(i as int)),
        decreases ls@.len() - i,
    {
        assert(all.skip(i as int)[0] == ls@[i as int]@);
        assert(all.skip(i as int).drop_first() =~= all.skip(i + 1));
        match marker_number_exec(ls[i].as_slice()) {
            Some(n) => {
                return Some(n);
            },
            None => {},
        }
        i += 1;
    }
    None
}

pub open spec fn sat_succ_u32(n: nat) -> nat {
    if n + 1 > 0xffff_ffff {
        0xffff_ffff
    } else {
        n + 1
    }
}

/// The next task number: the marker's (1 without a marker), but above
/// every task number in use.
pub open spec fn next_number(ts: Seq<TaskV>, text: Seq<char>) -> nat {
    let m = match first_marker(lines(text)) {
        Some(n) => n,
        None => 1,
    };
    let k = sat_succ_u32(max_number(ts));
    if m >= k {
        m
    } else {
        k
    }
}

/// The decimal digits of `n`, zero-padded to four.
pub open spec fn pad4(n: nat) -> Seq<char> {
    let d = decimal(n);
    if d.len() < 4 {
        Seq::new((4 - d.len()) as nat, |i: int| '0') + d
    } else {
        d
    }
}

/// `T-{n:04}`.
pub open spec fn task_id_of(n: nat) -> Seq<char> {
    "T-"@ + pad4(n)
}

fn task_id_text(n: u32) -> (s: String)
    ensures
        s@ == task_id_of(n as nat),
{
    let d = decimal_u64(n as u64);
    let dv = chars_of(d.as_str());
    let mut s = String::new();
    push_str(&mut s, "T-");
    let mut k: usize = dv.len();
    let ghost pad = if dv@.len() < 4 {
        Seq::new((4 - dv@.len()) as nat, |i: int| '0')
    } else {
        Seq::<char>::empty()
    };
    proof {
        reveal_strlit("T-");
    }
    while k < 4
        invariant
            dv@ == decimal(n as nat),
            dv@.len() <= k <= 4 || (k == dv@.len() && k >= 4),
            s@ == "T-"@ + Seq::new((k - dv@.len()) as nat, |i: int| '0'),
        decreases 4 - k,
    {
        crate::text::push_char(&mut s, '0');
        assert(s@ =~= "T-"@ + Seq::new((k + 1 - dv@.len()) as nat, |i: int| '0'));
        k += 1;
    }
    push_chars(&mut s, dv.as_slice());
    assert(s@ =~= task_id_of(n as nat));
    s
}

/// The id the next added task gets.
pub fn next_task_id(tasks: &[TaskItem], text: &str) -> (s: String)
    ensures
        s@ == task_id_of(next_number(task_views(tasks@), text@)),
{
    let marker_next = match next_task_number_from_marker(text) {
        Some(n) => n,
        None => 1,
    };
    let k = max_task_number(tasks).saturating_add(1);
    let next = if marker_next >= k {
        marker_next
    } else {
        k
    };
    task_id_text(next)
}

// ---------------------------------------------------------------------------
// Rewriting the marker
// ---------------------------------------------------------------------------

/// `<!-- catdesk-next-task-id: N -->`.
pub open spec fn marker_line(n: nat) -> Seq<char> {
    marker_prefix() + decimal(n) + " -->"@
}

pub open spec fn is_marker_line(l: Seq<char>) -> bool {
    starts_with(trim(l), marker_prefix())
}

/// The lines, each followed by `\n`, with every marker line replaced by `m`.
pub open spec fn with_marker_lines(ls: Seq<Seq<char>>, m: Seq<char>) -> Seq<char>
    decreases ls.len(),
{
    if ls.len() == 0 {
        seq![]
    } else {
        with_marker_lines(ls.drop_last(), m) + (if is_marker_line(ls.last()) {
            m
        } else {
            ls.last()
        }) + "\n"@
    }
}

/// The text with its marker lines set to `n`; without one, the marker is
/// appended after a blank line.
pub open spec fn marked_text(text: Seq<char>, n: nat) -> Seq<char> {
    let ls = lines(crate::markdown::normalized_md(text));
    let next = with_marker_lines(ls, marker_line(n));
    if exists|i: int| 0 <= i < ls.len() && is_marker_line(#[trigger] ls[i]) {
        next
    } else {
        let t = crate::markdown::normalized_md(next);
        let t2 = if ends_with(t, "\n\n"@) {
            t
        } else {
            t.push('\n')
        };
        t2 + marker_line(n) + "\n\n"@
    }
}

fn is_marker_chars(l: &[char]) -> (b: bool)
    ensures
        b == is_marker_line(l@),
{
    let t = trim_chars(l);
    let prefix = chars_of("<!-- catdesk-next-task-id: ");
    proof {
        reveal_strlit("<!-- catdesk-next-task-id: ");
    }
    starts_with_chars(t.as_slice(), prefix.as_slice())
}

/// Sets the next-id marker of `text` to `next_number`.
pub fn set_next_task_marker(text: &str, next_number: u32) -> (s: String)
    ensures
        s@ == marked_text(text@, next_number as nat),
{
    let mut marker = String::new();
    push_str(&mut marker, "<!-- catdesk-next-task-id: ");
    let d = decimal_u64(next_number as u64);
    push_str(&mut marker, d.as_str());
    push_str(&mut marker, " -->");
    proof {
        reveal_strlit("<!-- catdesk-next-task-id: ");
        reveal_strlit(" -->");
        assert(marker@ =~= marker_line(next_number as nat));
    }
    let normalized = crate::markdown::normalize_markdown(text);
    let ls = lines_of(chars_of(normalized.as_str()).as_slice());
    let ghost all = ls@.map_values(|l: Vec<char>| l@);
    let mut found = false;
    let mut next = String::new();
    let mut i: usize = 0;
    assert(all.take(0) =~= Seq::<Seq<char>>::empty());
    while i < ls.len()
        invariant
            i <= ls@.len(),
            all == ls@.map_values(|l: Vec<char>| l@),
            all == lines(crate::markdown::normalized_md(text@)),
            marker@ == marker_line(next_number as nat),
            next@ == with_marker_lines(all.take(i as int), marker@),
            found == exists|k: int| 0 <= k < i && is_marker_line(#[trigger] all[k]),
        decreases ls@.len() - i,
    {
        assert(all.take(i + 1).drop_last() =~= all.take(i as int));
        assert(all.take(i + 1).last() == ls@[i as int]@);
        if is_marker_chars(ls[i].as_slice()) {
            push_str(&mut next, marker.as_str());
            found = true;
        } else {
            push_chars(&mut next, ls[i].as_slice());
        }
        push_str(&mut next, "\n");
        proof {
            reveal_strlit("\n");
            assert(next@ =~= with_marker_lines(all.take(i + 1), marker@));
            if !found {
                assert forall|k: int| 0 <= k < i + 1 implies !is_marker_line(#[trigger] all[k]) by {
                    if k == i {
                        assert(all[k] == ls@[i as int]@);
                    }
                }
            }
            if found && !is_marker_line(all[i as int]) {
                let k = choose|k: int| 0 <= k < i && is_marker_line(#[trigger] all[k]);
                assert(0 <= k < i + 1 && is_marker_line(all[k]));
            }
        }
        i += 1;
    }
    assert(all.take(ls@.len() as int) =~= all);
    if !found {
        let mut t = crate::markdown::normalize_markdown(next.as_str());
        if !crate::text::str_ends_with(t.as_str(), "\n\n") {
            crate::text::push_char(&mut t, '\n');
        }
        push_str(&mut t, marker.as_str());
        push_str(&mut t, "\n\n");
        proof {
            reveal_strlit("\n\n");
        }
        t
    } else {
        next
    }
}

// ---------------------------------------------------------------------------
// Adding tasks
// ---------------------------------------------------------------------------

/// One task added to the text and the tasks parsed so far: a blank task is
/// skipped; otherwise it is appended as an open task with the next id, and
/// the marker moves past the largest number in use.
pub open spec fn add_one(st: (Seq<char>, Seq<TaskV>), task: Seq<char>) -> (Seq<char>, Seq<TaskV>) {
    let t = trim(task);
    if t.len() == 0 {
        st
    } else {
        let id = task_id_of(next_number(st.1, st.0));
        let text = st.0 + "- [ ] "@ + id + " "@ + t + "\n"@;
        let parsed = st.1.push((id, false, t));
        (marked_text(text, sat_succ_u32(max_number(parsed))), parsed)
    }
}

pub open spec fn add_all(st: (Seq<char>, Seq<TaskV>), tasks: Seq<Seq<char>>) -> (
    Seq<char>,
    Seq<TaskV>,
)
    decreases tasks.len(),
{
    if tasks.len() == 0 {
        st
    } else {
        add_one(add_all(st, tasks.drop_last()), tasks.last())
    }
}

/// The list after adding `tasks`: the marker is first set to its own value
/// (1 without one), the existing tasks are read, a blank line separates
/// them from the new ones, and each task is added in turn.
pub open spec fn added_text(existing: Seq<char>, tasks: Seq<Seq<char>>) -> Result<Seq<char>, Seq<char>> {
    let m = match first_marker(lines(existing)) {
        Some(n) => n,
        None => 1,
    };
    let text = marked_text(existing, m);
    match tasks_of(lines(text)) {
        Err(id) => Err(duplicate_msg(id)),
        Ok(parsed) => {
            let t = if ends_with(text, "\n\n"@) {
                text
            } else {
                text.push('\n')
            };
            Ok(add_all((t, parsed), tasks).0)
        },
    }
}

/// Adds `tasks` to the list `existing`.
pub fn add_to_text(existing: &str, tasks: &[String]) -> (r: Result<String, String>)
    ensures
        match r {
            Ok(t) => added_text(existing@, string_views(tasks@)) == Ok::<Seq<char>, Seq<char>>(t@),
            Err(e) => added_text(existing@, string_views(tasks@)) == Err::<Seq<char>, Seq<char>>(e@),
        },
{
    let marker_next = match next_task_number_from_marker(existing) {
        Some(n) => n,
        None => 1,
    };
    let mut text = set_next_task_marker(existing, marker_next);
    let mut parsed = match parse_tasks(text.as_str()) {
        Ok(v) => v,
        Err(e) => {
            return Err(e);
        },
    };
    if !crate::text::str_ends_with(text.as_str(), "\n\n") {
        crate::text::push_char(&mut text, '\n');
    }
    proof {
        reveal_strlit("\n\n");
    }
    let ghost all = string_views(tasks@);
    let ghost st0 = (text@, task_views(parsed@));
    let mut i: usize = 0;
    assert(all.take(0) =~= Seq::<Seq<char>>::empty());
    while i < tasks.len()
        invariant
            i <= tasks@.len(),
            all == string_views(tasks@),
            add_all(st0, all.take(i as int)) == (text@, task_views(parsed@)),
        decreases tasks@.len() - i,
    {
        assert(all.take(i + 1).drop_last() =~= all.take(i as int));
        assert(all.take(i + 1).last() == tasks@[i as int]@);
        let task = crate::text::str_trim(tasks[i].as_str());
        if !task.as_str().is_empty() {
            let id = next_task_id(parsed.as_slice(), text.as_str());
            push_str(&mut text, "- [ ] ");
            push_str(&mut text, id.as_str());
            push_str(&mut text, " ");
            push_str(&mut text, task.as_str());
            push_str(&mut text, "\n");
            let item = TaskItem { id, done: false, text: task };
            let ghost before = parsed@;
            parsed.push(item);
            assert(task_views(parsed@) =~= task_views(before).push(item@));
            let next = max_task_number(parsed.as_slice()).saturating_add(1);
            text = set_next_task_marker(text.as_str(), next);
            proof {
                reveal_strlit("- [ ] ");
                reveal_strlit(" ");
                reveal_strlit("\n");
            }
        }
        i += 1;
    }
    assert(all.take(tasks@.len() as int) =~= all);
    Ok(text)
}

// ---------------------------------------------------------------------------
// Checking tasks off
// ---------------------------------------------------------------------------

/// The whitespace a line starts with.
pub open spec fn leading_ws(line: Seq<char>) -> Seq<char> {
    line.take(line.len() - trim_start(line).len())
}

/// Rewriting state: text so far, ids seen, whether the task was found; or
/// the error.
pub type StatusState = Result<(Seq<char>, Seq<Seq<char>>, bool), Seq<char>>;

/// One line of the list while setting the status of task `id`: the task's
/// line is rewritten with its indentation, the new checkbox, id and text;
/// other lines stay; a repeated id is an error.
pub open spec fn status_step(st: StatusState, line: Seq<char>, id: Seq<char>, done: bool) -> StatusState {
    match st {
        Err(e) => Err(e),
        Ok((out, seen, updated)) => match task_of_line(line) {
            Some((tid, _, ttext)) => if seen.contains(tid) {
                Err(duplicate_msg(tid))
            } else if tid == id {
                Ok(
                    (
                        out + leading_ws(line) + (if done {
                            "- [x] "@
                        } else {
                            "- [ ] "@
                        }) + tid + " "@ + ttext + "\n"@,
                        seen.push(tid),
                        true,
                    ),
                )
            } else {
                Ok((out + line + "\n"@, seen.push(tid), updated))
            },
            None => Ok((out + line + "\n"@, seen, updated)),
        },
    }
}

pub open spec fn status_fold(ls: Seq<Seq<char>>, id: Seq<char>, done: bool) -> StatusState
    decreases ls.len(),
{
    if ls.len() == 0 {
        Ok((seq![], seq![], false))
    } else {
        status_step(status_fold(ls.drop_last(), id, done), ls.last(), id, done)
    }
}

pub open spec fn bad_id_msg() -> Seq<char> {
    "task id must use the form T-0001"@
}

pub open spec fn no_task_msg(id: Seq<char>) -> Seq<char> {
    "No task found with id "@ + id
}

/// The list with task `id` (trimmed) checked or unchecked.
pub open spec fn status_text(text: Seq<char>, id: Seq<char>, done: bool) -> Result<Seq<char>, Seq<char>> {
    let id = trim(id);
    if !is_task_id(id) {
        Err(bad_id_msg())
    } else {
        match status_fold(lines(text), id, done) {
            Err(e) => Err(e),
            Ok((out, _, updated)) => if updated {
                Ok(out)
            } else {
                Err(no_task_msg(id))
            },
        }
    }
}

fn seen_contains(seen: &Vec<Vec<char>>, id: &[char]) -> (b: bool)
    ensures
        b == seen@.map_values(|v: Vec<char>| v@).contains(id@),
{
    let ghost sv = seen@.map_values(|v: Vec<char>| v@);
    let mut i: usize = 0;
    while i < seen.len()
        invariant
            i <= seen@.len(),
            sv == seen@.map_values(|v: Vec<char>| v@),
            forall|k: int| 0 <= k < i ==> sv[k] != id@,
        decreases seen@.len() - i,
    {
        if crate::text::chars_eq(seen[i].as_slice(), id) {
            assert(sv[i as int] == id@);
            return true;
        }
        i += 1;
    }
    false
}

/// Checks (`done`) or unchecks task `id` in the list `text`.
pub fn set_status_in_text(text: &str, id: &str, done: bool) -> (r: Result<String, String>)
    ensures
        match r {
            Ok(t) => status_text(text@, id@, done) == Ok::<Seq<char>, Seq<char>>(t@),
            Err(e) => status_text(text@, id@, done) == Err::<Seq<char>, Seq<char>>(e@),
        },
{
    let idv = trim_chars(chars_of(id).as_slice());
    if !task_id_chars(idv.as_slice()) {
        let e = string_of(chars_of("task id must use the form T-0001").as_slice());
        proof {
            reveal_strlit("task id must use the form T-0001");
        }
        return Err(e);
    }
    let ls = lines_of(chars_of(text).as_slice());
    let ghost all = ls@.map_values(|l: Vec<char>| l@);
    let mut seen: Vec<Vec<char>> = Vec::new();
    let mut updated = false;
    let mut next = String::new();
    let mut i: usize = 0;
    assert(all.take(0) =~= Seq::<Seq<char>>::empty());
    assert(seen@.map_values(|v: Vec<char>| v@) =~= Seq::<Seq<char>>::empty());
    while i < ls.len()
        invariant
            i <= ls@.len(),
            all == ls@.map_values(|l: Vec<char>| l@),
            all == lines(text@),
            idv@ == trim(id@),
            is_task_id(idv@),
            status_fold(all.take(i as int), idv@, done) == Ok::<
                (Seq<char>, Seq<Seq<char>>, bool),
                Seq<char>,
            >((next@, seen@.map_values(|v: Vec<char>| v@), updated)),
        decreases ls@.len() - i,
    {
        assert(all.take(i + 1).drop_last() =~= all.take(i as int));
        assert(all.take(i + 1).last() == ls@[i as int]@);
        let line = ls[i].as_slice();
        let mut handled = false;
        match checkbox_chars(line) {
            Some((_, p)) => match payload_chars(p.as_slice()) {
                Some((tid, ttext)) => {
                    if seen_contains(&seen, tid.as_slice()) {
                        let mut e = String::new();
                        push_str(&mut e, "Duplicate task ID found in .catdesk/todo.md: ");
                        push_chars(&mut e, tid.as_slice());
                        proof {
                            reveal_strlit("Duplicate task ID found in .catdesk/todo.md: ");
                            assert(status_fold(all.take(i + 1), idv@, done) == Err::<
                                (Seq<char>, Seq<Seq<char>>, bool),
                                Seq<char>,
                            >(e@));
                            lemma_status_err_sticks(all, i + 1, idv@, done);
                            assert(status_fold(lines(text@), trim(id@), done) == Err::<
                                (Seq<char>, Seq<Seq<char>>, bool),
                                Seq<char>,
                            >(e@));
                        }
                        return Err(e);
                    }
                    let ghost seen0 = seen@;
                    if crate::text::chars_eq(tid.as_slice(), idv.as_slice()) {
                        let (start, _) = trim_bounds(line);
                        let indent = slice_chars(line, 0, start);
                        assert(indent@ =~= leading_ws(line@));
                        push_chars(&mut next, indent.as_slice());
                        if done {
                            push_str(&mut next, "- [x] ");
                        } else {
                            push_str(&mut next, "- [ ] ");
                        }
                        push_chars(&mut next, tid.as_slice());
                        push_str(&mut next, " ");
                        push_chars(&mut next, ttext.as_slice());
                        push_str(&mut next, "\n");
                        updated = true;
                        handled = true;
                    } else {
                        push_chars(&mut next, line);
                        push_str(&mut next, "\n");
                        handled = true;
                    }
                    seen.push(tid);
                    assert(seen@.map_values(|v: Vec<char>| v@) =~= seen0.map_values(|v: Vec<char>| v@).push(
                        seen@.last()@,
                    ));
                },
                None => {},
            },
            None => {},
        }
        if !handled {
            push_chars(&mut next, line);
            push_str(&mut next, "\n");
        }
        proof {
            reveal_strlit("- [x] ");
            reveal_strlit("- [ ] ");
            reveal_strlit(" ");
            reveal_strlit("\n");
        }
        i += 1;
    }
    assert(all.take(ls@.len() as int) =~= all);
    if !updated {
        let mut e = String::new();
        push_str(&mut e, "No task found with id ");
        push_chars(&mut e, idv.as_slice());
        proof {
            reveal_strlit("No task found with id ");
        }
        return Err(e);
    }
    Ok(next)
}

/// Once an error occurs, later lines keep it.
pub proof fn lemma_status_err_sticks(ls: Seq<Seq<char>>, n: int, id: Seq<char>, done: bool)
    requires
        0 <= n <= ls.len(),
        status_fold(ls.take(n), id, done) is Err,
    ensures
        status_fold(ls, id, done) == status_fold(ls.take(n), id, done),
    decreases ls.len() - n,
{
    if n < ls.len() {
        assert(ls.take(n + 1).drop_last() =~= ls.take(n));
        lemma_status_err_sticks(ls, n + 1, id, done);
    } else {
        assert(ls.take(n) =~= ls);
    }
}

// ---------------------------------------------------------------------------
// Output
// ---------------------------------------------------------------------------

pub open spec fn count_done(ts: Seq<TaskV>) -> nat
    decreases ts.len(),
{
    if ts.len() == 0 {
        0
    } else {
        count_done(ts.drop_last()) + (if ts.last().1 {
            1nat
        } else {
            0nat
        })
    }
}

proof fn lemma_count_done_le(ts: Seq<TaskV>)
    ensures
        count_done(ts) <= ts.len(),
    decreases ts.len(),
{
    if ts.len() > 0 {
        lemma_count_done_le(ts.drop_last());
    }
}

/// The output for the list `text` at `path`: its tasks and their counts.
pub fn output_from_text(path: String, text: String) -> (r: Result<TaskQueueOutput, String>)
    ensures
        match r {
            Ok(o) => {
                &&& tasks_of(lines(text@)) == Ok::<Seq<TaskV>, Seq<char>>(task_views(o.tasks@))
                &&& o.path@ == path@
                &&& o.text@ == text@
                &&& o.total == o.tasks@.len()
                &&& o.done == count_done(task_views(o.tasks@))
                &&& o.open == o.total - o.done
            },
            Err(e) => exists|id: Seq<char>|
                tasks_of(lines(text@)) == Err::<Seq<TaskV>, Seq<char>>(id) && e@ == duplicate_msg(id),
        },
{
    let tasks = match parse_tasks(text.as_str()) {
        Ok(v) => v,
        Err(e) => {
            return Err(e);
        },
    };
    let ghost tv = task_views(tasks@);
    let mut done: usize = 0;
    let mut i: usize = 0;
    assert(tv.take(0) =~= Seq::<TaskV>::empty());
    while i < tasks.len()
        invariant
            i <= tasks@.len(),
            tv == task_views(tasks@),
            done == count_done(tv.take(i as int)),
            done <= i,
        decreases tasks@.len() - i,
    {
        assert(tv.take(i + 1).drop_last() =~= tv.take(i as int));
        assert(tv.take(i + 1).last() == tasks@[i as int]@);
        if tasks[i].done {
            done += 1;
        }
        i += 1;
    }
    assert(tv.take(tasks@.len() as int) =~= tv);
    let total = tasks.len();
    Ok(TaskQueueOutput { path, total, open: total - done, done, tasks, text })
}

/// `- [x] ID text` or `- [ ] ID text` for each task.
pub open spec fn task_lines(ts: Seq<TaskV>) -> Seq<char>
    decreases ts.len(),
{
    if ts.len() == 0 {
        seq![]
    } else {
        task_lines(ts.drop_last()) + "- ["@ + (if ts.last().1 {
            "x"@
        } else {
            " "@
        }) + "] "@ + ts.last().0 + " "@ + ts.last().2 + "\n"@
    }
}

impl TaskQueueOutput {
    pub open spec fn rendered(self) -> Seq<char> {
        "path: "@ + self.path@ + "\ntotal: "@ + decimal(self.total as nat) + "\nopen: "@ + decimal(
            self.open as nat,
        ) + "\ndone: "@ + decimal(self.done as nat) + "\n"@ + if self.tasks@.len() == 0 {
            "\n_No tasks recorded._\n"@
        } else {
            "\n## Tasks\n"@ + task_lines(task_views(self.tasks@))
        }
    }

    /// The counts, then one checkbox line per task.
    pub fn render_text(&self) -> (s: String)
        ensures
            s@ == self.rendered(),
    {
        let mut out = String::new();
        push_str(&mut out, "path: ");
        push_str(&mut out, self.path.as_str());
        push_str(&mut out, "\ntotal: ");
        push_str(&mut out, decimal_u64(self.total as u64).as_str());
        push_str(&mut out, "\nopen: ");
        push_str(&mut out, decimal_u64(self.open as u64).as_str());
        push_str(&mut out, "\ndone: ");
        push_str(&mut out, decimal_u64(self.done as u64).as_str());
        push_str(&mut out, "\n");
        let ghost head = out@;
        if self.tasks.len() == 0 {
            push_str(&mut out, "\n_No tasks recorded._\n");
        } else {
            push_str(&mut out, "\n## Tasks\n");
            let ghost tv = task_views(self.tasks@);
            let ghost start = out@;
            let mut i: usize = 0;
            assert(tv.take(0) =~= Seq::<TaskV>::empty());
            assert(out@ =~= start + task_lines(tv.take(0)));
            while i < self.tasks.len()
                invariant
                    i <= self.tasks@.len(),
                    tv == task_views(self.tasks@),
                    out@ == start + task_lines(tv.take(i as int)),
                decreases self.tasks@.len() - i,
            {
                assert(tv.take(i + 1).drop_last() =~= tv.take(i as int));
                assert(tv.take(i + 1).last() == self.tasks@[i as int]@);
                let task = &self.tasks[i];
                push_str(&mut out, "- [");
                push_str(&mut out, if task.done { "x" } else { " " });
                push_str(&mut out, "] ");
                push_str(&mut out, task.id.as_str());
                push_str(&mut out, " ");
                push_str(&mut out, task.text.as_str());
                push_str(&mut out, "\n");
                proof {
                    reveal_strlit("- [");
                    reveal_strlit("x");
                    reveal_strlit(" ");
                    reveal_strlit("] ");
                    reveal_strlit("\n");
                    assert(out@ =~= start + task_lines(tv.take(i + 1)));
                }
                i += 1;
            }
            assert(tv.take(self.tasks@.len() as int) =~= tv);
        }
        proof {
            reveal_strlit("path: ");
            reveal_strlit("\ntotal: ");
            reveal_strlit("\nopen: ");
            reveal_strlit("\ndone: ");
            reveal_strlit("\n");
            reveal_strlit("\n_No tasks recorded._\n");
            reveal_strlit("\n## Tasks\n");
        }
        assert(out@ =~= self.rendered());
        out
    }
}

// ---------------------------------------------------------------------------
// Laws
// ---------------------------------------------------------------------------

/// Task ids only go up: the next number is above every task number in use
/// (short of the largest `u32`) and never below the recorded marker.
pub proof fn lemma_next_number_fresh(ts: Seq<TaskV>, text: Seq<char>)
    ensures
        max_number(ts) < 0xffff_ffff ==> next_number(ts, text) > max_number(ts),
        first_marker(lines(text)) matches Some(m) ==> next_number(ts, text) >= m,
{
}

/// A number is above every number of the tasks when it is above the
/// largest.
pub proof fn lemma_max_number_bounds(ts: Seq<TaskV>, i: int)
    requires
        0 <= i < ts.len(),
        task_number(ts[i].0) is Some,
    ensures
        task_number(ts[i].0)->Some_0 <= max_number(ts),
    decreases ts.len(),
{
    if i < ts.len() - 1 {
        lemma_max_number_bounds(ts.drop_last(), i);
        assert(ts.drop_last()[i] == ts[i]);
    }
}

/// The id an added task gets is not the id of any task already listed
/// (while numbers are below the largest `u32`).
pub proof fn lemma_next_id_unused(ts: Seq<TaskV>, text: Seq<char>, i: int)
    requires
        0 <= i < ts.len(),
        max_number(ts) < 0xffff_ffff,
        task_number(ts[i].0) is Some,
    ensures
        task_number(ts[i].0)->Some_0 < next_number(ts, text),
{
    lemma_max_number_bounds(ts, i);
    lemma_next_number_fresh(ts, text);
}

// ---------------------------------------------------------------------------
// Setting a status keeps the list
// ---------------------------------------------------------------------------

/// The tasks with the status of task `id` set to `done`.
pub open spec fn with_status(ts: Seq<TaskV>, id: Seq<char>, done: bool) -> Seq<TaskV> {
    ts.map_values(|t: TaskV| if t.0 == id {
        (t.0, done, t.2)
    } else {
        t
    })
}

/// A line of indentation, an open or checked box, an id `T-` with four
/// ASCII digits, a space and a text is read as that task: open or done as
/// the box says, with that id and text.
pub proof fn lemma_task_line_read(w: Seq<char>, id: Seq<char>, text: Seq<char>, done: bool)
    requires
        forall|i: int| 0 <= i < w.len() ==> is_ws(#[trigger] w[i]),
        id.len() == 6,
        id[0] == 'T',
        id[1] == '-',
        forall|i: int| 2 <= i < 6 ==> '0' <= #[trigger] id[i] <= '9',
        text.len() > 0,
        !is_ws(text[0]),
        !is_ws(text.last()),
    ensures
        task_of_line(w + (if done {
            "- [x] "@
        } else {
            "- [ ] "@
        }) + id + " "@ + text) == Some((id, done, text)),
{
    assert forall|i: int| 2 <= i < 6 implies is_ascii_digit(#[trigger] id[i]) by {
        assert('0' <= id[i] <= '9');
    }
    let q = id + " "@ + text;
    lemma_box_line(w, q, done);
    lemma_task_payload(id, text);
    let b = if done {
        "- [x] "@
    } else {
        "- [ ] "@
    };
    assert(w + b + id + " "@ + text =~= w + b + q);
}

/// A character added at the end cannot complete a prefix ending otherwise,
/// and keeps one that is already there.
proof fn lemma_starts_with_push(t: Seq<char>, c: char, p: Seq<char>)
    requires
        p.len() > 0,
        p.last() != c,
    ensures
        starts_with(t.push(c), p) == starts_with(t, p),
{
    if p.len() <= t.len() {
        assert(t.push(c).take(p.len() as int) =~= t.take(p.len() as int));
    } else if starts_with(t.push(c), p) {
        assert(t.push(c).take(p.len() as int)[p.len() - 1] == p[p.len() - 1]);
    }
}

/// A final carriage return does not change whether a line is a checkbox,
/// only adds itself to the text after the box.
proof fn lemma_checkbox_strip_cr(l: Seq<char>)
    requires
        l.len() > 0,
        l.last() == '\r',
    ensures
        match (checkbox(l), checkbox(l.drop_last())) {
            (Some((d, p)), Some((d2, p2))) => d == d2 && p == p2.push('\r'),
            (None, None) => true,
            _ => false,
        },
{
    let l2 = l.drop_last();
    assert(l =~= l2.push('\r'));
    lemma_trim_start_push(l2, '\r');
    reveal_strlit("- [ ] ");
    reveal_strlit("* [ ] ");
    reveal_strlit("- [x] ");
    reveal_strlit("- [X] ");
    reveal_strlit("* [x] ");
    reveal_strlit("* [X] ");
    let t2 = trim_start(l2);
    if t2.len() > 0 {
        lemma_starts_with_push(t2, '\r', "- [ ] "@);
        lemma_starts_with_push(t2, '\r', "* [ ] "@);
        lemma_starts_with_push(t2, '\r', "- [x] "@);
        lemma_starts_with_push(t2, '\r', "- [X] "@);
        lemma_starts_with_push(t2, '\r', "* [x] "@);
        lemma_starts_with_push(t2, '\r', "* [X] "@);
        if t2.len() >= 6 {
            assert(t2.push('\r').skip(6) =~= t2.skip(6).push('\r'));
        }
    }
}

/// `str::lines` dropping a final carriage return does not change the task a
/// line holds.
proof fn lemma_task_of_line_strip_cr(l: Seq<char>)
    ensures
        task_of_line(strip_cr(l)) == task_of_line(l),
{
    if l.len() > 0 && l.last() == '\r' {
        lemma_checkbox_strip_cr(l);
        match checkbox(l.drop_last()) {
            Some((d, p2)) => {
                lemma_trim_push_ws(p2, '\r');
            },
            None => {},
        }
    }
}

/// The line of task `tid` with the status `done`, indented as `line` is.
pub open spec fn status_line(line: Seq<char>, tid: Seq<char>, text: Seq<char>, done: bool) -> Seq<char> {
    leading_ws(line) + (if done {
        "- [x] "@
    } else {
        "- [ ] "@
    }) + tid + " "@ + text
}

proof fn lemma_no_break_subrange(s: Seq<char>, a: int, b: int)
    requires
        0 <= a <= b <= s.len(),
        !s.contains('\n'),
    ensures
        !s.subrange(a, b).contains('\n'),
{
    assert forall|j: int| 0 <= j < b - a implies s.subrange(a, b)[j] != '\n' by {
        assert(s.subrange(a, b)[j] == s[a + j]);
    }
}

/// The task of a line without line breaks: a valid id, and text that is
/// not empty, starts and ends with other than whitespace, and has no line
/// break.
proof fn lemma_task_text(line: Seq<char>)
    requires
        task_of_line(line) is Some,
        !line.contains('\n'),
    ensures
        ({
            let (tid, d, tt) = task_of_line(line)->Some_0;
            &&& is_task_id(tid)
            &&& tt.len() > 0
            &&& !is_ws(tt[0])
            &&& !is_ws(tt.last())
            &&& !tt.contains('\n')
        }),
{
    reveal_strlit("- [ ] ");
    reveal_strlit("* [ ] ");
    reveal_strlit("- [x] ");
    reveal_strlit("- [X] ");
    reveal_strlit("* [x] ");
    reveal_strlit("* [X] ");
    let (d1, p) = checkbox(line).unwrap();
    let t = trim(p);
    let k = first_where(t, |c: char| is_ws(c));
    crate::text::lemma_first_where_le(t, |c: char| is_ws(c));
    let text = trim(t.skip(k as int + 1));
    lemma_trim_start_shape(line);
    let t0 = trim_start(line);
    let j0 = line.len() - t0.len();
    assert(p =~= line.subrange(j0 + 6, line.len() as int));
    lemma_trim_shape(p);
    let (a1, b1) = choose|a: int, b: int| 0 <= a <= b <= p.len() && t == #[trigger] p.subrange(a, b);
    let u = t.skip(k as int + 1);
    lemma_trim_shape(u);
    let (a2, b2) = choose|a: int, b: int| 0 <= a <= b <= u.len() && text == #[trigger] u.subrange(a, b);
    assert(text =~= line.subrange(j0 + 6 + a1 + k + 1 + a2, j0 + 6 + a1 + k + 1 + b2));
    lemma_no_break_subrange(line, j0 + 6 + a1 + k + 1 + a2, j0 + 6 + a1 + k + 1 + b2);
}

/// Whitespace, a box and text: a checkbox line with that text.
proof fn lemma_box_line(w: Seq<char>, q: Seq<char>, done: bool)
    requires
        forall|i: int| 0 <= i < w.len() ==> is_ws(#[trigger] w[i]),
    ensures
        checkbox(w + (if done {
            "- [x] "@
        } else {
            "- [ ] "@
        }) + q) == Some((done, q)),
{
    reveal_strlit("- [ ] ");
    reveal_strlit("* [ ] ");
    reveal_strlit("- [x] ");
    reveal_strlit("- [X] ");
    reveal_strlit("* [x] ");
    reveal_strlit("* [X] ");
    let bx: Seq<char> = if done {
        "- [x] "@
    } else {
        "- [ ] "@
    };
    let n = w + bx + q;
    assert forall|i: int| 0 <= i < w.len() implies is_ws(#[trigger] n[i]) by {
        assert(n[i] == w[i]);
    }
    assert(n[w.len() as int] == '-');
    lemma_trim_start_at(n, w.len() as int);
    assert(trim_start(n) =~= bx + q);
    assert((bx + q).skip(6) =~= q);
    assert((bx + q).take(6) =~= bx);
    assert("- [ ] "@[3] != "- [x] "@[3]);
    assert("* [ ] "@[0] != bx[0]);
    if done {
        assert(bx != "- [ ] "@);
        assert(bx != "* [ ] "@);
    }
}

/// `ID text` with a valid id and trimmed text is the payload of that task.
proof fn lemma_task_payload(tid: Seq<char>, text: Seq<char>)
    requires
        is_task_id(tid),
        text.len() > 0,
        !is_ws(text[0]),
        !is_ws(text.last()),
    ensures
        payload(tid + " "@ + text) == Some((tid, text)),
{
    reveal_strlit(" ");
    let q = tid + " "@ + text;
    assert(q[0] == 'T');
    assert(q.last() == text.last());
    lemma_trim_of_trimmed(q);
    assert forall|i: int| 0 <= i < 6 implies !is_ws(#[trigger] q[i]) by {
        assert(q[i] == tid[i]);
        if i >= 2 {
            assert(is_ascii_digit(tid[i]));
        }
    }
    assert(q[6] == ' ');
    lemma_first_where(q, |c: char| is_ws(c), 6);
    assert(q.take(6) =~= tid);
    assert(q.skip(7) =~= text);
    lemma_trim_of_trimmed(text);
}

/// The rewritten line of a task holds the same task with the new status.
proof fn lemma_status_line(line: Seq<char>, tid: Seq<char>, d0: bool, text: Seq<char>, done: bool)
    requires
        task_of_line(line) == Some((tid, d0, text)),
        !line.contains('\n'),
    ensures
        task_of_line(status_line(line, tid, text, done)) == Some((tid, done, text)),
        strip_cr(status_line(line, tid, text, done)) == status_line(line, tid, text, done),
        !status_line(line, tid, text, done).contains('\n'),
{
    reveal_strlit(" ");
    reveal_strlit("- [ ] ");
    reveal_strlit("- [x] ");
    lemma_task_text(line);
    lemma_trim_start_shape(line);
    let w = leading_ws(line);
    let j0 = line.len() - trim_start(line).len();
    assert(w =~= line.take(j0));
    assert forall|i: int| 0 <= i < w.len() implies is_ws(#[trigger] w[i]) by {
        assert(w[i] == line[i]);
    }
    lemma_no_break_subrange(line, 0, j0);
    let bx: Seq<char> = if done {
        "- [x] "@
    } else {
        "- [ ] "@
    };
    let q = tid + " "@ + text;
    let n = status_line(line, tid, text, done);
    assert(n =~= w + bx + q);
    lemma_box_line(w, q, done);
    lemma_task_payload(tid, text);
    assert(n.last() == text.last());
    assert forall|i: int| 0 <= i < n.len() implies n[i] != '\n' by {
        if i < w.len() {
            assert(n[i] == w[i]);
            assert(w[i] == line.take(j0)[i]);
        } else if i < w.len() + 6 {
            assert(n[i] == bx[i - w.len()]);
        } else if i < w.len() + 12 {
            assert(n[i] == tid[i - w.len() - 6]);
            if i - w.len() - 6 >= 2 {
                assert(is_ascii_digit(tid[i - w.len() - 6]));
            }
        } else if i == w.len() + 12 {
            assert(n[i] == ' ');
        } else {
            assert(n[i] == text[i - w.len() - 13]);
        }
    }
}

/// Status lines keep the ids they were given.
proof fn lemma_with_status_ids(ts: Seq<TaskV>, id: Seq<char>, done: bool)
    ensures
        task_ids(with_status(ts, id, done)) == task_ids(ts),
{
    assert(task_ids(with_status(ts, id, done)) =~= task_ids(ts));
}

/// What rewriting one more line keeps.
pub open spec fn fold_keeps(st: (Seq<char>, Seq<Seq<char>>, bool), ts: Seq<TaskV>, id: Seq<char>, done: bool) -> bool {
    &&& task_ids(ts) == st.1
    &&& (st.0.len() == 0 || st.0.last() == '\n')
    &&& tasks_of(lines(st.0)) == Ok::<Seq<TaskV>, Seq<char>>(with_status(ts, id, done))
    &&& st.2 == task_ids(ts).contains(id)
}

/// A line of text appended: the tasks of the text are those before and
/// the task of the line, if any, unless its id repeats.
proof fn lemma_lines_task(out: Seq<char>, l: Seq<char>, before: Seq<TaskV>)
    requires
        out.len() == 0 || out.last() == '\n',
        !l.contains('\n'),
        tasks_of(lines(out)) == Ok::<Seq<TaskV>, Seq<char>>(before),
    ensures
        tasks_of(lines(out + l + seq!['\n'])) == match task_of_line(l) {
            Some(t) => if task_ids(before).contains(t.0) {
                Err::<Seq<TaskV>, Seq<char>>(t.0)
            } else {
                Ok(before.push(t))
            },
            None => Ok(before),
        },
{
    lemma_lines_push_line(out, l);
    lemma_task_of_line_strip_cr(l);
    assert(lines(out + l + seq!['\n']).drop_last() =~= lines(out));
}

/// One more line keeps the rewritten text in step with the tasks.
proof fn lemma_status_step(
    st: (Seq<char>, Seq<Seq<char>>, bool),
    ts: Seq<TaskV>,
    l: Seq<char>,
    id: Seq<char>,
    done: bool,
)
    requires
        fold_keeps(st, ts, id, done),
        !l.contains('\n'),
        status_step(Ok(st), l, id, done) is Ok,
    ensures
        ({
            let ts2 = match task_of_line(l) {
                Some(t) => ts.push(t),
                None => ts,
            };
            &&& !(task_of_line(l) matches Some(t) && task_ids(ts).contains(t.0))
            &&& fold_keeps(status_step(Ok(st), l, id, done)->Ok_0, ts2, id, done)
        }),
{
    reveal_strlit("\n");
    reveal_strlit(" ");
    let (out, seen, updated) = st;
    let ws = with_status(ts, id, done);
    lemma_with_status_ids(ts, id, done);
    let out2 = status_step(Ok(st), l, id, done)->Ok_0.0;
    match task_of_line(l) {
        Some((tid, d, tt)) => {
            let ts2 = ts.push((tid, d, tt));
            assert(task_ids(ts2) =~= task_ids(ts).push(tid));
            if tid == id {
                let sl = status_line(l, tid, tt, done);
                lemma_status_line(l, tid, d, tt, done);
                assert(out2 =~= out + sl + seq!['\n']);
                lemma_lines_task(out, sl, ws);
                assert(with_status(ts2, id, done) =~= ws.push((tid, done, tt)));
                assert(task_ids(ts2)[ts.len() as int] == id);
            } else {
                assert(out2 =~= out + l + seq!['\n']);
                lemma_lines_task(out, l, ws);
                assert(with_status(ts2, id, done) =~= ws.push((tid, d, tt)));
                assert(task_ids(ts2).contains(id) == task_ids(ts).contains(id)) by {
                    if task_ids(ts2).contains(id) {
                        let j = choose|j: int| 0 <= j < task_ids(ts2).len() && task_ids(ts2)[j] == id;
                        assert(j < ts.len());
                        assert(task_ids(ts)[j] == id);
                    }
                    if task_ids(ts).contains(id) {
                        let j = choose|j: int| 0 <= j < task_ids(ts).len() && task_ids(ts)[j] == id;
                        assert(task_ids(ts2)[j] == id);
                    }
                }
            }
        },
        None => {
            assert(out2 =~= out + l + seq!['\n']);
            lemma_lines_task(out, l, ws);
        },
    }
}

/// Rewriting the lines keeps their tasks, with the new status for `id`.
proof fn lemma_status_fold(ls: Seq<Seq<char>>, id: Seq<char>, done: bool)
    requires
        forall|i: int| 0 <= i < ls.len() ==> !(#[trigger] ls[i]).contains('\n'),
        status_fold(ls, id, done) is Ok,
    ensures
        tasks_of(ls) is Ok,
        fold_keeps(status_fold(ls, id, done)->Ok_0, tasks_of(ls)->Ok_0, id, done),
    decreases ls.len(),
{
    if ls.len() == 0 {
        assert(lines(Seq::<char>::empty()) =~= Seq::<Seq<char>>::empty());
        assert(task_ids(Seq::<TaskV>::empty()) =~= Seq::<Seq<char>>::empty());
        assert(with_status(Seq::<TaskV>::empty(), id, done) =~= Seq::<TaskV>::empty());
    } else {
        let init = ls.drop_last();
        let l = ls.last();
        assert forall|i: int| 0 <= i < init.len() implies !(#[trigger] init[i]).contains('\n') by {
            assert(init[i] == ls[i]);
        }
        assert(!l.contains('\n')) by {
            assert(l == ls[ls.len() - 1]);
        }
        if status_fold(init, id, done) is Err {
            assert(status_fold(ls, id, done) is Err);
        }
        lemma_status_fold(init, id, done);
        lemma_status_step(status_fold(init, id, done)->Ok_0, tasks_of(init)->Ok_0, l, id, done);
    }
}

/// Rewriting lines whose tasks read without a repeated id never fails; it
/// sees their ids and finds `id` exactly when one of them is `id`.
proof fn lemma_status_fold_ok(ls: Seq<Seq<char>>, id: Seq<char>, done: bool)
    requires
        tasks_of(ls) is Ok,
    ensures
        status_fold(ls, id, done) is Ok,
        status_fold(ls, id, done)->Ok_0.1 == task_ids(tasks_of(ls)->Ok_0),
        status_fold(ls, id, done)->Ok_0.2 == task_ids(tasks_of(ls)->Ok_0).contains(id),
    decreases ls.len(),
{
    if ls.len() == 0 {
        assert(task_ids(Seq::<TaskV>::empty()) =~= Seq::<Seq<char>>::empty());
    } else {
        let init = ls.drop_last();
        lemma_status_fold_ok(init, id, done);
        let ts = tasks_of(init)->Ok_0;
        match task_of_line(ls.last()) {
            Some(t) => {
                let ts2 = ts.push(t);
                assert(task_ids(ts2) =~= task_ids(ts).push(t.0));
                assert(task_ids(ts2).contains(id) == (task_ids(ts).contains(id) || t.0 == id)) by {
                    if task_ids(ts2).contains(id) {
                        let j = choose|j: int| 0 <= j < task_ids(ts2).len() && task_ids(ts2)[j] == id;
                        if j < ts.len() {
                            assert(task_ids(ts)[j] == id);
                        }
                    }
                    if task_ids(ts).contains(id) {
                        let j = choose|j: int| 0 <= j < task_ids(ts).len() && task_ids(ts)[j] == id;
                        assert(task_ids(ts2)[j] == id);
                    }
                    if t.0 == id {
                        assert(task_ids(ts2)[ts.len() as int] == id);
                    }
                }
            },
            None => {},
        }
    }
}

/// Setting the status of task `id` succeeds exactly when `id` (trimmed)
/// has the task id form, the list reads without a repeated id, and a task
/// of the list has that id; otherwise it fails with the matching error.
pub proof fn lemma_status_ok_when_found(text: Seq<char>, id: Seq<char>, done: bool)
    ensures
        (status_text(text, id, done) is Ok) == (is_task_id(trim(id)) && tasks_of(lines(text)) is Ok
            && task_ids(tasks_of(lines(text))->Ok_0).contains(trim(id))),
        !is_task_id(trim(id)) ==> status_text(text, id, done) == Err::<Seq<char>, Seq<char>>(bad_id_msg()),
        is_task_id(trim(id)) && tasks_of(lines(text)) is Ok && !task_ids(tasks_of(lines(text))->Ok_0).contains(
            trim(id),
        ) ==> status_text(text, id, done) == Err::<Seq<char>, Seq<char>>(no_task_msg(trim(id))),
{
    if tasks_of(lines(text)) is Ok {
        lemma_status_fold_ok(lines(text), trim(id), done);
    }
    if status_text(text, id, done) is Ok {
        lemma_status_keeps_tasks(text, id, done);
    }
}

/// Setting the status of a task keeps every task of the list, in order,
/// with its id and text, and gives the task with that id (trimmed) the new
/// status; that task is in the list.
pub proof fn lemma_status_keeps_tasks(text: Seq<char>, id: Seq<char>, done: bool)
    requires
        status_text(text, id, done) is Ok,
    ensures
        match tasks_of(lines(text)) {
            Ok(ts) => {
                &&& task_ids(ts).contains(trim(id))
                &&& tasks_of(lines(status_text(text, id, done)->Ok_0)) == Ok::<Seq<TaskV>, Seq<char>>(
                    with_status(ts, trim(id), done),
                )
            },
            Err(_) => false,
        },
{
    lemma_lines_no_break(text);
    lemma_status_fold(lines(text), trim(id), done);
}

// ---------------------------------------------------------------------------
// Adding tasks: what is read back
// ---------------------------------------------------------------------------

/// A line that holds no task leaves the tasks as they were.
proof fn lemma_tasks_of_push_plain(ls: Seq<Seq<char>>, l: Seq<char>)
    requires
        task_of_line(l) is None,
    ensures
        tasks_of(ls.push(l)) == tasks_of(ls),
{
    assert(ls.push(l).drop_last() =~= ls);
    assert(ls.push(l).last() == l);
}

/// Lines that hold the same tasks, one for one, give the same list.
proof fn lemma_tasks_of_same(a: Seq<Seq<char>>, b: Seq<Seq<char>>)
    requires
        a.len() == b.len(),
        forall|i: int| 0 <= i < a.len() ==> task_of_line(#[trigger] a[i]) == task_of_line(b[i]),
    ensures
        tasks_of(a) == tasks_of(b),
    decreases a.len(),
{
    if a.len() > 0 {
        assert forall|i: int| 0 <= i < a.drop_last().len() implies task_of_line(
            #[trigger] a.drop_last()[i],
        ) == task_of_line(b.drop_last()[i]) by {
            assert(a.drop_last()[i] == a[i]);
            assert(b.drop_last()[i] == b[i]);
        }
        lemma_tasks_of_same(a.drop_last(), b.drop_last());
        assert(task_of_line(a[a.len() - 1]) == task_of_line(b[a.len() - 1]));
    }
}

/// A line whose text starts with `<` holds no task.
proof fn lemma_angle_line_no_task(l: Seq<char>)
    requires
        trim_start(l).len() > 0,
        trim_start(l)[0] == '<',
    ensures
        task_of_line(l) is None,
{
    let t = trim_start(l);
    reveal_strlit("- [ ] ");
    reveal_strlit("* [ ] ");
    reveal_strlit("- [x] ");
    reveal_strlit("- [X] ");
    reveal_strlit("* [x] ");
    reveal_strlit("* [X] ");
    assert forall|p: Seq<char>| p.len() > 0 && p[0] != '<' implies !starts_with(t, p) by {
        if starts_with(t, p) {
            assert(t.take(p.len() as int)[0] == t[0]);
        }
    }
    assert(checkbox(l) is None);
}

/// The empty line holds no task.
proof fn lemma_empty_line_no_task()
    ensures
        task_of_line(Seq::<char>::empty()) is None,
{
    let e = Seq::<char>::empty();
    lemma_trim_start_at(e, 0);
    assert(trim_start(e) =~= e);
    reveal_strlit("- [ ] ");
    reveal_strlit("* [ ] ");
    reveal_strlit("- [x] ");
    reveal_strlit("- [X] ");
    reveal_strlit("* [x] ");
    reveal_strlit("* [X] ");
}

/// Marker lines hold no task.
proof fn lemma_marker_no_task(l: Seq<char>)
    requires
        is_marker_line(l),
    ensures
        task_of_line(l) is None,
{
    reveal_strlit("<!-- catdesk-next-task-id: ");
    let ts = trim_start(l);
    crate::text::lemma_trim_end_shape(ts);
    let t = trim(l);
    assert(t.take(marker_prefix().len() as int) == marker_prefix());
    assert(marker_prefix()[0] == '<');
    assert(t.take(marker_prefix().len() as int)[0] == t[0]);
    assert(t[0] == '<');
    assert(ts[0] == t[0]);
    lemma_angle_line_no_task(l);
}

/// The marker `marker_line(n)` holds no task and no line break.
proof fn lemma_marker_line_plain(n: nat)
    ensures
        task_of_line(marker_line(n)) is None,
        !marker_line(n).contains('\n'),
        !marker_line(n).contains('\r'),
        marker_line(n).len() > 0,
{
    reveal_strlit("<!-- catdesk-next-task-id: ");
    reveal_strlit(" -->");
    let m = marker_line(n);
    crate::number::lemma_decimal_chars(n);
    let d = decimal(n);
    assert forall|i: int| 0 <= i < m.len() implies m[i] != '\n' && m[i] != '\r' by {
        if i < marker_prefix().len() {
            assert(m[i] == marker_prefix()[i]);
        } else if i < marker_prefix().len() + d.len() {
            assert(m[i] == d[i - marker_prefix().len()]);
        } else {
            assert(m[i] == " -->"@[i - marker_prefix().len() - d.len()]);
        }
    }
    assert(m[0] == '<');
    lemma_trim_start_at(m, 0);
    assert(m.skip(0) =~= m);
    lemma_angle_line_no_task(m);
}

/// Lines of text without `\r` hold no `\r`.
proof fn lemma_lines_no_cr(s: Seq<char>)
    requires
        !s.contains('\r'),
    ensures
        forall|i: int| 0 <= i < lines(s).len() ==> !(#[trigger] lines(s)[i]).contains('\r'),
        s.len() > 0 ==> lines(s).len() > 0,
    decreases s.len(),
{
    if s.len() > 0 {
        crate::text::lemma_find_char_bounds(s, '\n');
        let k = crate::text::find_char(s, '\n');
        if k < 0 || k >= s.len() {
            assert(lines(s) =~= seq![s]);
        } else {
            let rest = s.skip(k + 1);
            assert(!rest.contains('\r')) by {
                assert forall|j: int| 0 <= j < rest.len() implies rest[j] != '\r' by {
                    assert(rest[j] == s[k + 1 + j]);
                }
            }
            lemma_lines_no_cr(rest);
            let first = strip_cr(s.take(k));
            assert(!first.contains('\r')) by {
                assert forall|j: int| 0 <= j < first.len() implies first[j] != '\r' by {
                    assert(first[j] == s[j]);
                }
            }
            assert forall|i: int| 0 <= i < lines(s).len() implies !(#[trigger] lines(s)[i]).contains(
                '\r',
            ) by {
                if i > 0 {
                    assert(lines(s)[i] == lines(rest)[i - 1]);
                } else {
                    assert(lines(s)[0] == first);
                }
            }
        }
    }
}

/// A line without `\r` loses nothing to `strip_cr`.
proof fn lemma_strip_cr_plain(l: Seq<char>)
    requires
        !l.contains('\r'),
    ensures
        strip_cr(l) == l,
{
    if l.len() > 0 {
        assert(l[l.len() - 1] != '\r');
    }
}

/// Each line in turn, marker lines replaced by `m`.
pub open spec fn marked_lines(ls: Seq<Seq<char>>, m: Seq<char>) -> Seq<Seq<char>> {
    ls.map_values(|l: Seq<char>| if is_marker_line(l) {
        m
    } else {
        l
    })
}

proof fn lemma_lines_with_markers(ls: Seq<Seq<char>>, m: Seq<char>)
    requires
        forall|i: int| 0 <= i < ls.len() ==> !(#[trigger] ls[i]).contains('\n') && !ls[i].contains('\r'),
        !m.contains('\n'),
        !m.contains('\r'),
    ensures
        lines(with_marker_lines(ls, m)) == marked_lines(ls, m),
        with_marker_lines(ls, m).len() == 0 || with_marker_lines(ls, m).last() == '\n',
        ls.len() > 0 ==> with_marker_lines(ls, m).len() > 0,
        !with_marker_lines(ls, m).contains('\r'),
    decreases ls.len(),
{
    reveal_strlit("\n");
    if ls.len() == 0 {
        assert(lines(Seq::<char>::empty()) =~= Seq::<Seq<char>>::empty());
        assert(marked_lines(ls, m) =~= Seq::<Seq<char>>::empty());
    } else {
        let pre = with_marker_lines(ls.drop_last(), m);
        assert forall|i: int| 0 <= i < ls.drop_last().len() implies !(
        #[trigger] ls.drop_last()[i]).contains('\n') && !ls.drop_last()[i].contains('\r') by {
            assert(ls.drop_last()[i] == ls[i]);
        }
        lemma_lines_with_markers(ls.drop_last(), m);
        let last = ls[ls.len() - 1];
        assert(last == ls.last());
        let l2 = if is_marker_line(last) {
            m
        } else {
            last
        };
        assert(with_marker_lines(ls, m) =~= pre + l2 + seq!['\n']);
        lemma_lines_push_line(pre, l2);
        lemma_strip_cr_plain(l2);
        assert(marked_lines(ls, m) =~= marked_lines(ls.drop_last(), m).push(l2));
        let w = with_marker_lines(ls, m);
        assert forall|i: int| 0 <= i < w.len() implies w[i] != '\r' by {
            if i < pre.len() {
                assert(w[i] == pre[i]);
            } else if i < pre.len() + l2.len() {
                assert(w[i] == l2[i - pre.len()]);
            }
        }
    }
}

/// Appending a marker line after a blank line to text ending in a line
/// break keeps its tasks.
proof fn lemma_append_marker(t: Seq<char>, m: Seq<char>)
    requires
        t.len() > 0,
        t.last() == '\n',
        !t.contains('\r'),
        !m.contains('\n'),
        !m.contains('\r'),
        task_of_line(m) is None,
    ensures
        ({
            let t2 = if ends_with(t, "\n\n"@) {
                t
            } else {
                t.push('\n')
            };
            let r = t2 + m + "\n\n"@;
            &&& tasks_of(lines(r)) == tasks_of(lines(t))
            &&& !r.contains('\r')
            &&& r.len() > 0
            &&& r.last() == '\n'
        }),
{
    reveal_strlit("\n\n");
    lemma_empty_line_no_task();
    let t2 = if ends_with(t, "\n\n"@) {
        t
    } else {
        t.push('\n')
    };
    if !ends_with(t, "\n\n"@) {
        assert(t.push('\n') =~= t + Seq::<char>::empty() + seq!['\n']);
        lemma_lines_push_line(t, Seq::<char>::empty());
        lemma_tasks_of_push_plain(lines(t), Seq::<char>::empty());
        assert(strip_cr(Seq::<char>::empty()) =~= Seq::<char>::empty());
    }
    assert(!t2.contains('\r')) by {
        assert forall|i: int| 0 <= i < t2.len() implies t2[i] != '\r' by {
            if i < t.len() {
                assert(t2[i] == t[i]);
            }
        }
    }
    let r = t2 + m + "\n\n"@;
    let r1 = t2 + m + seq!['\n'];
    assert(r =~= r1 + Seq::<char>::empty() + seq!['\n']);
    lemma_lines_push_line(t2, m);
    lemma_strip_cr_plain(m);
    lemma_lines_push_line(r1, Seq::<char>::empty());
    assert(strip_cr(Seq::<char>::empty()) =~= Seq::<char>::empty());
    lemma_tasks_of_push_plain(lines(t2), m);
    lemma_tasks_of_push_plain(lines(t2).push(m), Seq::<char>::empty());
    assert(!r.contains('\r')) by {
        assert forall|i: int| 0 <= i < r.len() implies r[i] != '\r' by {
            if i < t2.len() {
                assert(r[i] == t2[i]);
            } else if i < t2.len() + m.len() {
                assert(r[i] == m[i - t2.len()]);
            }
        }
    }
}

/// The lines of normalized text hold the tasks of the text.
proof fn lemma_normalized_tasks(text: Seq<char>)
    requires
        crate::markdown::no_lone_cr(text),
    ensures
        tasks_of(lines(crate::markdown::normalized_md(text))) == tasks_of(lines(text)),
{
    crate::markdown::lemma_lines_normalized(text);
    if text.len() == 0 {
        lemma_empty_line_no_task();
        assert(seq![Seq::<char>::empty()] =~= Seq::<Seq<char>>::empty().push(Seq::<char>::empty()));
        lemma_tasks_of_push_plain(Seq::<Seq<char>>::empty(), Seq::<char>::empty());
        assert(lines(text) =~= Seq::<Seq<char>>::empty());
    }
}

/// Rewriting the marker keeps the tasks of the text with its line endings
/// normalized, and leaves text without `\r` that ends with a line break.
pub proof fn lemma_marked_keeps_normalized_tasks(text: Seq<char>, n: nat)
    ensures
        tasks_of(lines(marked_text(text, n))) == tasks_of(lines(crate::markdown::normalized_md(text))),
        !marked_text(text, n).contains('\r'),
        marked_text(text, n).len() > 0,
        marked_text(text, n).last() == '\n',
{
    let norm = crate::markdown::normalized_md(text);
    crate::markdown::lemma_normalized_shape(text);
    let ls = lines(norm);
    lemma_lines_no_break(norm);
    lemma_lines_no_cr(norm);
    let m = marker_line(n);
    lemma_marker_line_plain(n);
    lemma_lines_with_markers(ls, m);
    let next = with_marker_lines(ls, m);
    let mapped = marked_lines(ls, m);
    assert forall|i: int| 0 <= i < mapped.len() implies task_of_line(#[trigger] mapped[i])
        == task_of_line(ls[i]) by {
        if is_marker_line(ls[i]) {
            lemma_marker_no_task(ls[i]);
        }
    }
    lemma_tasks_of_same(mapped, ls);
    if !(exists|i: int| 0 <= i < ls.len() && is_marker_line(#[trigger] ls[i])) {
        crate::markdown::lemma_unix_newlines_keeps(next);
        assert(crate::markdown::normalized_md(next) == next);
        lemma_append_marker(next, m);
    }
}

/// Rewriting the marker keeps the tasks of text without a lone `\r`.
pub proof fn lemma_marked_keeps_tasks(text: Seq<char>, n: nat)
    requires
        crate::markdown::no_lone_cr(text),
    ensures
        tasks_of(lines(marked_text(text, n))) == tasks_of(lines(text)),
{
    lemma_marked_keeps_normalized_tasks(text, n);
    lemma_normalized_tasks(text);
}

/// Leading zeros do not change a decimal number.
proof fn lemma_parse_zero_prefix(z: Seq<char>, d: Seq<char>, max: nat)
    requires
        forall|i: int| 0 <= i < z.len() ==> z[i] == '0',
    ensures
        parse_digits_of(z + d, max) == parse_digits_of(d, max),
    decreases d.len(),
{
    if d.len() == 0 {
        assert(z + d =~= z);
        lemma_zeros_parse(z, max);
    } else {
        lemma_parse_zero_prefix(z, d.drop_last(), max);
        assert((z + d).drop_last() =~= z + d.drop_last());
        assert((z + d).last() == d.last());
    }
}

pub open spec fn parse_digits_of(s: Seq<char>, max: nat) -> Result<nat, crate::number::IntErrorKind> {
    crate::number::parse_digits(s, 10, max)
}

proof fn lemma_zeros_parse(z: Seq<char>, max: nat)
    requires
        forall|i: int| 0 <= i < z.len() ==> z[i] == '0',
    ensures
        parse_digits_of(z, max) == Ok::<nat, crate::number::IntErrorKind>(0),
    decreases z.len(),
{
    if z.len() > 0 {
        lemma_zeros_parse(z.drop_last(), max);
        assert(z.last() == '0');
        assert(crate::number::digit_value('0', 10) == Some(0nat));
    }
}

/// `task_id_of(n)` reads back as `n`.
proof fn lemma_task_id_number(n: nat)
    requires
        n <= 0xffff_ffff,
    ensures
        task_number(task_id_of(n)) == Some(n),
{
    reveal_strlit("T-");
    let id = task_id_of(n);
    let d = decimal(n);
    crate::number::lemma_decimal_chars(n);
    crate::number::lemma_decimal_parse(n, 0xffff_ffff);
    assert(id.take(2) =~= "T-"@);
    let p = pad4(n);
    assert(id.skip(2) =~= p);
    if d.len() < 4 {
        let z = Seq::new((4 - d.len()) as nat, |i: int| '0');
        assert(p == z + d);
        lemma_parse_zero_prefix(z, d, 0xffff_ffff);
        assert(p[0] == '0');
    } else {
        assert(p == d);
        assert(p[0] == d[0]);
    }
}

/// Numbers below ten thousand have at most four digits.
proof fn lemma_decimal_short(n: nat)
    requires
        n < 10000,
    ensures
        decimal(n).len() <= 4,
{
    reveal_with_fuel(decimal, 4);
    if n >= 10 {
        assert(n / 10 < 1000);
        if n / 10 >= 10 {
            assert(n / 10 / 10 < 100);
            if n / 10 / 10 >= 10 {
                assert(n / 10 / 10 / 10 < 10);
            }
        }
    }
}

/// `task_id_of(n)` is a task id while `n` has at most four digits.
proof fn lemma_task_id_valid(n: nat)
    requires
        n < 10000,
    ensures
        is_task_id(task_id_of(n)),
        !task_id_of(n).contains('\n'),
        !task_id_of(n).contains('\r'),
{
    reveal_strlit("T-");
    lemma_decimal_short(n);
    crate::number::lemma_decimal_chars(n);
    let d = decimal(n);
    let id = task_id_of(n);
    let z = Seq::new((4 - d.len()) as nat, |i: int| '0');
    assert(pad4(n) == z + d);
    assert(id.len() == 6);
    assert forall|i: int| 2 <= i < 6 implies is_ascii_digit(#[trigger] id[i]) by {
        if i - 2 < z.len() {
            assert(id[i] == z[i - 2]);
        } else {
            assert(id[i] == d[i - 2 - z.len()]);
        }
    }
    assert forall|i: int| 0 <= i < id.len() implies id[i] != '\n' && id[i] != '\r' by {
        if i >= 2 {
            assert(is_ascii_digit(id[i]));
        }
    }
}

/// A marker number fits in a `u32`.
proof fn lemma_first_marker_bound(ls: Seq<Seq<char>>)
    ensures
        first_marker(ls) matches Some(v) ==> v <= 0xffff_ffff,
    decreases ls.len(),
{
    if ls.len() > 0 {
        let t = trim(ls[0]);
        let r = t.skip(marker_prefix().len() as int);
        crate::number::lemma_parse_uint_bound(trim(r.take(r.len() - 3)), 10, 0xffff_ffff);
        lemma_first_marker_bound(ls.drop_first());
    }
}

/// The line `- [ ] ID text` holds that open task.
proof fn lemma_new_task_line(id: Seq<char>, t: Seq<char>)
    requires
        is_task_id(id),
        t.len() > 0,
        !is_ws(t[0]),
        !is_ws(t.last()),
    ensures
        task_of_line("- [ ] "@ + id + " "@ + t) == Some((id, false, t)),
{
    let q = id + " "@ + t;
    let w = Seq::<char>::empty();
    lemma_box_line(w, q, false);
    assert(w + "- [ ] "@ + q =~= "- [ ] "@ + id + " "@ + t);
    lemma_task_payload(id, t);
}

/// Adding one task makes the number of the largest id no smaller.
proof fn lemma_add_one_grows(st: (Seq<char>, Seq<TaskV>), task: Seq<char>)
    ensures
        max_number(st.1) <= max_number(add_one(st, task).1),
        st.1 == add_one(st, task).1.take(st.1.len() as int),
{
    let t = trim(task);
    if t.len() > 0 {
        let id = task_id_of(next_number(st.1, st.0));
        let parsed = st.1.push((id, false, t));
        assert(parsed.drop_last() =~= st.1);
        assert(parsed.take(st.1.len() as int) =~= st.1);
    } else {
        assert(st.1.take(st.1.len() as int) =~= st.1);
    }
}

/// Adding one task to text whose tasks are `st.1` gives text whose tasks
/// are those of the new state.
#[verifier::rlimit(30)]
proof fn lemma_add_one_keeps(st: (Seq<char>, Seq<TaskV>), task: Seq<char>)
    requires
        tasks_of(lines(st.0)) == Ok::<Seq<TaskV>, Seq<char>>(st.1),
        !st.0.contains('\r'),
        st.0.len() > 0,
        st.0.last() == '\n',
        !trim(task).contains('\r'),
        !trim(task).contains('\n'),
        max_number(add_one(st, task).1) < 10000,
    ensures
        tasks_of(lines(add_one(st, task).0)) == Ok::<Seq<TaskV>, Seq<char>>(add_one(st, task).1),
        !add_one(st, task).0.contains('\r'),
        add_one(st, task).0.len() > 0,
        add_one(st, task).0.last() == '\n',
{
    reveal_strlit("- [ ] ");
    reveal_strlit(" ");
    reveal_strlit("\n");
    let t = trim(task);
    if t.len() > 0 {
        let nn = next_number(st.1, st.0);
        lemma_first_marker_bound(lines(st.0));
        assert(nn <= 0xffff_ffff);
        let id = task_id_of(nn);
        lemma_task_id_number(nn);
        let parsed = st.1.push((id, false, t));
        assert(parsed.drop_last() =~= st.1);
        assert(parsed.last() == (id, false, t));
        assert(nn <= max_number(parsed));
        assert(max_number(st.1) <= max_number(parsed));
        lemma_task_id_valid(nn);
        lemma_trim_shape(task);
        let line = "- [ ] "@ + id + " "@ + t;
        assert forall|i: int| 0 <= i < line.len() implies line[i] != '\r' && line[i] != '\n' by {
            if i < 6 {
                assert(line[i] == "- [ ] "@[i]);
            } else if i < 6 + id.len() {
                assert(line[i] == id[i - 6]);
            } else if i == 6 + id.len() {
                assert(line[i] == ' ');
            } else {
                assert(line[i] == t[i - 7 - id.len()]);
            }
        }
        lemma_new_task_line(id, t);
        let text = st.0 + "- [ ] "@ + id + " "@ + t + "\n"@;
        assert(text =~= st.0 + line + seq!['\n']);
        lemma_lines_push_line(st.0, line);
        lemma_strip_cr_plain(line);
        assert(!task_ids(st.1).contains(id)) by {
            if task_ids(st.1).contains(id) {
                let i = choose|i: int| 0 <= i < task_ids(st.1).len() && task_ids(st.1)[i] == id;
                assert(st.1[i].0 == id);
                lemma_next_id_unused(st.1, st.0, i);
            }
        }
        let ls = lines(st.0).push(line);
        assert(ls.drop_last() =~= lines(st.0));
        assert(ls.last() == line);
        assert(tasks_of(lines(text)) == Ok::<Seq<TaskV>, Seq<char>>(parsed));
        assert(crate::markdown::no_lone_cr(text)) by {
            assert forall|i: int| 0 <= i < text.len() implies text[i] != '\r' by {
                if i < st.0.len() {
                    assert(text[i] == st.0[i]);
                } else if i < st.0.len() + line.len() {
                    assert(text[i] == line[i - st.0.len()]);
                }
            }
        }
        lemma_marked_keeps_normalized_tasks(text, sat_succ_u32(max_number(parsed)));
        lemma_normalized_tasks(text);
    }
}

/// The texts of the non-blank tasks, trimmed, in order.
pub open spec fn nonblank_texts(tasks: Seq<Seq<char>>) -> Seq<Seq<char>>
    decreases tasks.len(),
{
    if tasks.len() == 0 {
        seq![]
    } else if trim(tasks.last()).len() == 0 {
        nonblank_texts(tasks.drop_last())
    } else {
        nonblank_texts(tasks.drop_last()).push(trim(tasks.last()))
    }
}

/// Adding tasks keeps the tasks there were and appends one open task per
/// non-blank task given, with its trimmed text.
proof fn lemma_add_all_appends(st: (Seq<char>, Seq<TaskV>), tasks: Seq<Seq<char>>)
    ensures
        add_all(st, tasks).1.len() == st.1.len() + nonblank_texts(tasks).len(),
        add_all(st, tasks).1.take(st.1.len() as int) == st.1,
        forall|k: int|
            0 <= k < nonblank_texts(tasks).len() ==> !(#[trigger] add_all(st, tasks).1[st.1.len() + k]).1
                && add_all(st, tasks).1[st.1.len() + k].2 == nonblank_texts(tasks)[k],
        max_number(st.1) <= max_number(add_all(st, tasks).1),
    decreases tasks.len(),
{
    if tasks.len() == 0 {
        assert(st.1.take(st.1.len() as int) =~= st.1);
    } else {
        let mid = add_all(st, tasks.drop_last());
        lemma_add_all_appends(st, tasks.drop_last());
        lemma_add_one_grows(mid, tasks.last());
        let fin = add_one(mid, tasks.last());
        assert(fin.1.take(st.1.len() as int) =~= mid.1.take(st.1.len() as int)) by {
            assert forall|i: int| 0 <= i < st.1.len() implies fin.1[i] == mid.1[i] by {
                assert(fin.1.take(mid.1.len() as int)[i] == mid.1[i]);
            }
        }
        let nb = nonblank_texts(tasks.drop_last());
        assert forall|k: int| 0 <= k < nonblank_texts(tasks).len() implies !(
        #[trigger] fin.1[st.1.len() + k]).1 && fin.1[st.1.len() + k].2 == nonblank_texts(tasks)[k] by {
            if k < nb.len() {
                assert(fin.1.take(mid.1.len() as int)[st.1.len() + k] == mid.1[st.1.len() + k]);
            }
        }
    }
}

/// Adding the tasks one by one keeps the text's tasks those of the state.
proof fn lemma_add_all_keeps(st: (Seq<char>, Seq<TaskV>), tasks: Seq<Seq<char>>)
    requires
        tasks_of(lines(st.0)) == Ok::<Seq<TaskV>, Seq<char>>(st.1),
        !st.0.contains('\r'),
        st.0.len() > 0,
        st.0.last() == '\n',
        forall|i: int|
            0 <= i < tasks.len() ==> !trim(#[trigger] tasks[i]).contains('\r') && !trim(tasks[i]).contains('\n'),
        max_number(add_all(st, tasks).1) < 10000,
    ensures
        tasks_of(lines(add_all(st, tasks).0)) == Ok::<Seq<TaskV>, Seq<char>>(add_all(st, tasks).1),
        !add_all(st, tasks).0.contains('\r'),
        add_all(st, tasks).0.len() > 0,
        add_all(st, tasks).0.last() == '\n',
    decreases tasks.len(),
{
    if tasks.len() > 0 {
        let mid = add_all(st, tasks.drop_last());
        lemma_add_one_grows(mid, tasks.last());
        assert forall|i: int| 0 <= i < tasks.drop_last().len() implies !trim(
        #[trigger] tasks.drop_last()[i]).contains('\r') && !trim(tasks.drop_last()[i]).contains('\n') by {
            assert(tasks.drop_last()[i] == tasks[i]);
        }
        lemma_add_all_keeps(st, tasks.drop_last());
        assert(tasks.last() == tasks[tasks.len() - 1]);
        lemma_add_one_keeps(mid, tasks.last());
    }
}

/// The tasks listed after adding `tasks` to `existing`.
pub open spec fn added_list(existing: Seq<char>, tasks: Seq<Seq<char>>) -> Seq<TaskV> {
    let m = match first_marker(lines(existing)) {
        Some(n) => n,
        None => 1,
    };
    let text = marked_text(existing, m);
    match tasks_of(lines(text)) {
        Err(_) => seq![],
        Ok(parsed) => {
            let t = if ends_with(text, "\n\n"@) {
                text
            } else {
                text.push('\n')
            };
            add_all((t, parsed), tasks).1
        },
    }
}

/// Reading back the list after adding tasks gives the tasks there were,
/// then one open task per non-blank task given, with its trimmed text and
/// a new id. This holds where normalizing the line endings of `existing`
/// leaves its tasks as they were (as for all text in which every `\r`
/// starts a `\r\n`), where no trimmed task holds a line break, and while
/// ids keep to four digits.
pub proof fn lemma_add_then_read(existing: Seq<char>, tasks: Seq<Seq<char>>)
    requires
        tasks_of(lines(crate::markdown::normalized_md(existing))) == tasks_of(lines(existing)),
        forall|i: int|
            0 <= i < tasks.len() ==> !trim(#[trigger] tasks[i]).contains('\r') && !trim(tasks[i]).contains('\n'),
        added_text(existing, tasks) is Ok,
        max_number(added_list(existing, tasks)) < 10000,
    ensures
        tasks_of(lines(existing)) is Ok,
        tasks_of(lines(added_text(existing, tasks)->Ok_0)) == Ok::<Seq<TaskV>, Seq<char>>(
            added_list(existing, tasks),
        ),
        ({
            let before = tasks_of(lines(existing))->Ok_0;
            let after = added_list(existing, tasks);
            &&& after.len() == before.len() + nonblank_texts(tasks).len()
            &&& after.take(before.len() as int) == before
            &&& forall|k: int|
                0 <= k < nonblank_texts(tasks).len() ==> !(#[trigger] after[before.len() + k]).1
                    && after[before.len() + k].2 == nonblank_texts(tasks)[k]
        }),
{
    reveal_strlit("\n\n");
    let m = match first_marker(lines(existing)) {
        Some(n) => n,
        None => 1,
    };
    let text = marked_text(existing, m);
    lemma_marked_keeps_normalized_tasks(existing, m);
    let parsed = tasks_of(lines(text))->Ok_0;
    let t = if ends_with(text, "\n\n"@) {
        text
    } else {
        text.push('\n')
    };
    if !ends_with(text, "\n\n"@) {
        assert(text.push('\n') =~= text + Seq::<char>::empty() + seq!['\n']);
        lemma_lines_push_line(text, Seq::<char>::empty());
        lemma_empty_line_no_task();
        lemma_tasks_of_push_plain(lines(text), Seq::<char>::empty());
        assert(strip_cr(Seq::<char>::empty()) =~= Seq::<char>::empty());
        assert(!t.contains('\r')) by {
            assert forall|i: int| 0 <= i < t.len() implies t[i] != '\r' by {
                if i < text.len() {
                    assert(t[i] == text[i]);
                }
            }
        }
    }
    lemma_add_all_keeps((t, parsed), tasks);
    lemma_add_all_appends((t, parsed), tasks);
}

} // verus!
