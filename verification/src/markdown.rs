//! Markdown text kept in the workspace: line endings and trailing newline.
use vstd::prelude::*;
use crate::text::{
    chars_of, ends_with, find_char, lemma_find_char, lemma_find_char_bounds, lines, push_char,
    string_of, strip_cr,
};

verus! {

/// Every `\r\n` and every other `\r` becomes `\n`.
pub open spec fn unix_newlines(s: Seq<char>) -> Seq<char>
    decreases s.len(),
{
    if s.len() == 0 {
        seq![]
    } else if s[0] == '\r' && s.len() > 1 && s[1] == '\n' {
        seq!['\n'] + unix_newlines(s.skip(2))
    } else if s[0] == '\r' {
        seq!['\n'] + unix_newlines(s.skip(1))
    } else {
        seq![s[0]] + unix_newlines(s.skip(1))
    }
}

/// Unix line endings, and a final newline.
pub open spec fn normalized_md(s: Seq<char>) -> Seq<char> {
    let t = unix_newlines(s);
    if t.len() > 0 && t.last() == '\n' {
        t
    } else {
        t.push('\n')
    }
}

proof fn lemma_unix_newlines_step(s: Seq<char>, i: int)
    requires
        0 <= i <= s.len(),
    ensures
        i < s.len() && s[i] == '\r' && i + 1 < s.len() && s[i + 1] == '\n' ==> unix_newlines(s.skip(i))
            == seq!['\n'] + unix_newlines(s.skip(i + 2)),
        i < s.len() && s[i] == '\r' && !(i + 1 < s.len() && s[i + 1] == '\n') ==> unix_newlines(
            s.skip(i),
        ) == seq!['\n'] + unix_newlines(s.skip(i + 1)),
        i < s.len() && s[i] != '\r' ==> unix_newlines(s.skip(i)) == seq![s[i]] + unix_newlines(
            s.skip(i + 1),
        ),
{
    if i < s.len() {
        let t = s.skip(i);
        assert(t[0] == s[i]);
        assert(t.skip(1) =~= s.skip(i + 1));
        if i + 1 < s.len() {
            assert(t[1] == s[i + 1]);
            assert(t.skip(2) =~= s.skip(i + 2));
        }
    }
}

/// `text.replace("\r\n", "\n").replace('\r', "\n")`, with a newline added
/// when the result does not end with one.
pub fn normalize_markdown(text: &str) -> (r: String)
    ensures
        r@ == normalized_md(text@),
{
    let s = chars_of(text);
    let mut out: Vec<char> = Vec::new();
    let mut i: usize = 0;
    assert(s@.skip(0) =~= s@);
    while i < s.len()
        invariant
            i <= s.len(),
            out@ + unix_newlines(s@.skip(i as int)) == unix_newlines(s@),
        decreases s.len() - i,
    {
        proof {
            lemma_unix_newlines_step(s@, i as int);
        }
        let ghost before = out@;
        if s[i] == '\r' {
            out.push('\n');
            if i + 1 < s.len() && s[i + 1] == '\n' {
                i += 2;
            } else {
                i += 1;
            }
        } else {
            out.push(s[i]);
            i += 1;
        }
        assert(out@ + unix_newlines(s@.skip(i as int)) =~= before + unix_newlines(
            s@.skip(i as int),
        ).insert(0, out@.last()));
    }
    assert(s@.skip(i as int) =~= Seq::<char>::empty());
    assert(out@ =~= unix_newlines(s@));
    if out.len() == 0 || out[out.len() - 1] != '\n' {
        out.push('\n');
    }
    string_of(out.as_slice())
}

/// Unix line endings hold no carriage return.
pub proof fn lemma_unix_newlines_no_cr(s: Seq<char>)
    ensures
        !unix_newlines(s).contains('\r'),
    decreases s.len(),
{
    if s.len() > 0 {
        if s[0] == '\r' && s.len() > 1 && s[1] == '\n' {
            lemma_unix_newlines_no_cr(s.skip(2));
            assert(unix_newlines(s) == seq!['\n'] + unix_newlines(s.skip(2)));
            assert forall|i: int| 0 <= i < unix_newlines(s).len() implies unix_newlines(s)[i] != '\r' by {
                if i > 0 {
                    assert(unix_newlines(s)[i] == unix_newlines(s.skip(2))[i - 1]);
                }
            }
        } else if s[0] == '\r' {
            lemma_unix_newlines_no_cr(s.skip(1));
            assert forall|i: int| 0 <= i < unix_newlines(s).len() implies unix_newlines(s)[i] != '\r' by {
                if i > 0 {
                    assert(unix_newlines(s)[i] == unix_newlines(s.skip(1))[i - 1]);
                }
            }
        } else {
            lemma_unix_newlines_no_cr(s.skip(1));
            assert forall|i: int| 0 <= i < unix_newlines(s).len() implies unix_newlines(s)[i] != '\r' by {
                if i > 0 {
                    assert(unix_newlines(s)[i] == unix_newlines(s.skip(1))[i - 1]);
                }
            }
        }
    }
}

/// Text without a carriage return keeps its line endings.
pub proof fn lemma_unix_newlines_keeps(s: Seq<char>)
    requires
        !s.contains('\r'),
    ensures
        unix_newlines(s) == s,
    decreases s.len(),
{
    if s.len() > 0 {
        assert(s[0] != '\r');
        assert(!s.skip(1).contains('\r')) by {
            assert forall|i: int| 0 <= i < s.skip(1).len() implies s.skip(1)[i] != '\r' by {
                assert(s.skip(1)[i] == s[i + 1]);
            }
        }
        lemma_unix_newlines_keeps(s.skip(1));
        assert(seq![s[0]] + s.skip(1) =~= s);
    }
}

/// Normalizing markdown twice gives what normalizing once gives.
pub proof fn lemma_normalized_md_idempotent(s: Seq<char>)
    ensures
        normalized_md(normalized_md(s)) == normalized_md(s),
{
    let t = unix_newlines(s);
    let n = normalized_md(s);
    lemma_unix_newlines_no_cr(s);
    assert(!n.contains('\r')) by {
        if !(t.len() > 0 && t.last() == '\n') {
            assert forall|i: int| 0 <= i < n.len() implies n[i] != '\r' by {
                if i < t.len() {
                    assert(n[i] == t[i]);
                }
            }
        }
    }
    lemma_unix_newlines_keeps(n);
}

/// Every `\r` of the text is the first half of a `\r\n`.
pub open spec fn no_lone_cr(s: Seq<char>) -> bool {
    forall|i: int| 0 <= i < s.len() && #[trigger] s[i] == '\r' ==> i + 1 < s.len() && s[i + 1] == '\n'
}

/// Unix line endings of two pieces, the first not ending in `\r`, are
/// those of each.
proof fn lemma_unix_newlines_concat(x: Seq<char>, y: Seq<char>)
    requires
        x.len() == 0 || x.last() != '\r',
    ensures
        unix_newlines(x + y) == unix_newlines(x) + unix_newlines(y),
    decreases x.len(),
{
    let s = x + y;
    if x.len() == 0 {
        assert(s =~= y);
        assert(unix_newlines(x) + unix_newlines(y) =~= unix_newlines(y));
    } else {
        assert(s[0] == x[0]);
        if x[0] == '\r' {
            assert(x.len() > 1);
            assert(s[1] == x[1]);
            if x[1] == '\n' {
                assert(s.skip(2) =~= x.skip(2) + y);
                lemma_unix_newlines_concat(x.skip(2), y);
                assert(unix_newlines(s) =~= unix_newlines(x) + unix_newlines(y));
            } else {
                assert(s.skip(1) =~= x.skip(1) + y);
                lemma_unix_newlines_concat(x.skip(1), y);
                assert(unix_newlines(s) =~= unix_newlines(x) + unix_newlines(y));
            }
        } else {
            assert(s.skip(1) =~= x.skip(1) + y);
            lemma_unix_newlines_concat(x.skip(1), y);
            assert(unix_newlines(s) =~= unix_newlines(x) + unix_newlines(y));
        }
    }
}

/// The lines of `a` + `\n` + `z`, where `a` holds no `\n`.
pub proof fn lemma_lines_first(a: Seq<char>, z: Seq<char>)
    requires
        !a.contains('\n'),
    ensures
        lines(a + seq!['\n'] + z) == seq![strip_cr(a)] + lines(z),
{
    let s = a + seq!['\n'] + z;
    assert forall|j: int| 0 <= j < a.len() implies s[j] != '\n' by {
        assert(s[j] == a[j]);
    }
    lemma_find_char(s, '\n', a.len() as int);
    assert(s.take(a.len() as int) =~= a);
    assert(s.skip(a.len() as int + 1) =~= z);
}

/// Unix line endings leave the lines of text without a lone `\r` as they
/// were.
pub proof fn lemma_lines_unix_newlines(s: Seq<char>)
    requires
        no_lone_cr(s),
    ensures
        lines(unix_newlines(s)) == lines(s),
    decreases s.len(),
{
    if s.len() > 0 {
        lemma_find_char_bounds(s, '\n');
        let k = find_char(s, '\n');
        if k < 0 {
            assert(!s.contains('\r')) by {
                if s.contains('\r') {
                    let i = choose|i: int| 0 <= i < s.len() && s[i] == '\r';
                    assert(s[i + 1] == '\n');
                }
            }
            lemma_unix_newlines_keeps(s);
        } else {
            let rest = s.skip(k + 1);
            assert(no_lone_cr(rest)) by {
                assert forall|i: int| 0 <= i < rest.len() && #[trigger] rest[i] == '\r' implies i + 1 < rest.len()
                    && rest[i + 1] == '\n' by {
                    assert(rest[i] == s[k + 1 + i]);
                    assert(s[k + 2 + i] == rest[i + 1]);
                }
            }
            lemma_lines_unix_newlines(rest);
            if k > 0 && s[k - 1] == '\r' {
                let a = s.take(k - 1);
                assert(!a.contains('\r') && !a.contains('\n')) by {
                    assert forall|i: int| 0 <= i < a.len() implies a[i] != '\r' && a[i] != '\n' by {
                        assert(a[i] == s[i]);
                        if s[i] == '\r' {
                            assert(s[i + 1] == '\n');
                        }
                    }
                }
                let y = seq!['\r', '\n'] + rest;
                assert(s =~= a + y);
                assert(y.skip(2) =~= rest);
                assert(unix_newlines(y) == seq!['\n'] + unix_newlines(rest));
                if a.len() > 0 {
                    assert(a.last() != '\r');
                }
                lemma_unix_newlines_concat(a, y);
                lemma_unix_newlines_keeps(a);
                assert(unix_newlines(s) =~= a + seq!['\n'] + unix_newlines(rest));
                lemma_lines_first(a, unix_newlines(rest));
                assert(s.take(k) =~= a.push('\r'));
                assert(strip_cr(a.push('\r')) =~= a);
                if a.len() > 0 {
                    assert(strip_cr(a) == a);
                }
            } else {
                let a = s.take(k);
                assert(!a.contains('\r') && !a.contains('\n')) by {
                    assert forall|i: int| 0 <= i < a.len() implies a[i] != '\r' && a[i] != '\n' by {
                        assert(a[i] == s[i]);
                        if s[i] == '\r' {
                            assert(s[i + 1] == '\n');
                        }
                    }
                }
                let x = a + seq!['\n'];
                assert(s =~= x + rest);
                assert(!x.contains('\r')) by {
                    assert forall|i: int| 0 <= i < x.len() implies x[i] != '\r' by {
                        if i < a.len() {
                            assert(x[i] == a[i]);
                        }
                    }
                }
                lemma_unix_newlines_concat(x, rest);
                lemma_unix_newlines_keeps(x);
                assert(unix_newlines(s) =~= a + seq!['\n'] + unix_newlines(rest));
                lemma_lines_first(a, unix_newlines(rest));
                if a.len() > 0 {
                    assert(strip_cr(a) == a);
                }
            }
        }
    }
}

/// A final `\n` added to text without `\r` that does not end in one adds
/// no line.
pub proof fn lemma_lines_push_newline(t: Seq<char>)
    requires
        t.len() > 0,
        t.last() != '\n',
        !t.contains('\r'),
    ensures
        lines(t.push('\n')) == lines(t),
    decreases t.len(),
{
    lemma_find_char_bounds(t, '\n');
    let k = find_char(t, '\n');
    if k < 0 {
        assert(!t.contains('\n'));
        lemma_lines_first(t, seq![]);
        assert(t.push('\n') =~= t + seq!['\n'] + Seq::<char>::empty());
        assert(strip_cr(t) == t);
        assert(lines(Seq::<char>::empty()) =~= Seq::<Seq<char>>::empty());
        assert(lines(t) == seq![t]);
    } else {
        let a = t.take(k);
        let r = t.skip(k + 1);
        assert(!a.contains('\n')) by {
            assert forall|i: int| 0 <= i < a.len() implies a[i] != '\n' by {
                assert(a[i] == t[i]);
            }
        }
        assert(k < t.len() - 1);
        assert(r.len() > 0 && r.last() == t.last());
        assert(!r.contains('\r')) by {
            assert forall|i: int| 0 <= i < r.len() implies r[i] != '\r' by {
                assert(r[i] == t[k + 1 + i]);
            }
        }
        lemma_lines_push_newline(r);
        assert(t =~= a + seq!['\n'] + r);
        assert(t.push('\n') =~= a + seq!['\n'] + r.push('\n'));
        lemma_lines_first(a, r);
        lemma_lines_first(a, r.push('\n'));
    }
}

/// Normalized text has no `\r` and ends with a line break.
pub proof fn lemma_normalized_shape(s: Seq<char>)
    ensures
        !normalized_md(s).contains('\r'),
        normalized_md(s).len() > 0,
        normalized_md(s).last() == '\n',
{
    let t = unix_newlines(s);
    lemma_unix_newlines_no_cr(s);
    let n = normalized_md(s);
    assert(!n.contains('\r')) by {
        if !(t.len() > 0 && t.last() == '\n') {
            assert forall|i: int| 0 <= i < n.len() implies n[i] != '\r' by {
                if i < t.len() {
                    assert(n[i] == t[i]);
                }
            }
        }
    }
}

/// Normalizing text without a lone `\r` keeps its lines; empty text
/// becomes one empty line.
pub proof fn lemma_lines_normalized(s: Seq<char>)
    requires
        no_lone_cr(s),
    ensures
        s.len() > 0 ==> lines(normalized_md(s)) == lines(s),
        s.len() == 0 ==> lines(normalized_md(s)) == seq![Seq::<char>::empty()],
        !normalized_md(s).contains('\r'),
        normalized_md(s).len() > 0,
        normalized_md(s).last() == '\n',
{
    let t = unix_newlines(s);
    lemma_unix_newlines_no_cr(s);
    lemma_lines_unix_newlines(s);
    let n = normalized_md(s);
    assert(!n.contains('\r')) by {
        if !(t.len() > 0 && t.last() == '\n') {
            assert forall|i: int| 0 <= i < n.len() implies n[i] != '\r' by {
                if i < t.len() {
                    assert(n[i] == t[i]);
                }
            }
        }
    }
    if s.len() == 0 {
        assert(t =~= Seq::<char>::empty());
        assert(n =~= Seq::<char>::empty() + seq!['\n'] + Seq::<char>::empty());
        lemma_lines_first(Seq::<char>::empty(), Seq::<char>::empty());
        assert(lines(Seq::<char>::empty()) =~= Seq::<Seq<char>>::empty());
        assert(strip_cr(Seq::<char>::empty()) =~= Seq::<char>::empty());
    } else {
        assert(t.len() > 0);
        if !(t.last() == '\n') {
            lemma_lines_push_newline(t);
        }
    }
}

} // verus!
