//! Strictly ascending vectors of strings: the lexicographic order of their
//! characters (which is also the byte order of their UTF-8 encodings).
use vstd::prelude::*;
use crate::text::string_views;
use crate::text::chars_of;

verus! {

/// Lexicographic "less than" on character sequences, by code point.
pub open spec fn seq_lt(a: Seq<char>, b: Seq<char>) -> bool
    decreases a.len(),
{
    if a.len() == 0 {
        b.len() > 0
    } else if b.len() == 0 {
        false
    } else if a[0] < b[0] {
        true
    } else if a[0] > b[0] {
        false
    } else {
        seq_lt(a.drop_first(), b.drop_first())
    }
}

pub proof fn lemma_lt_irreflexive(a: Seq<char>)
    ensures
        !seq_lt(a, a),
    decreases a.len(),
{
    if a.len() > 0 {
        lemma_lt_irreflexive(a.drop_first());
    }
}

pub proof fn lemma_lt_transitive(a: Seq<char>, b: Seq<char>, c: Seq<char>)
    requires
        seq_lt(a, b),
        seq_lt(b, c),
    ensures
        seq_lt(a, c),
    decreases a.len(),
{
    if a.len() > 0 && b.len() > 0 && c.len() > 0 {
        if a[0] == b[0] && b[0] == c[0] {
            lemma_lt_transitive(a.drop_first(), b.drop_first(), c.drop_first());
        }
    }
}

pub proof fn lemma_lt_total(a: Seq<char>, b: Seq<char>)
    ensures
        seq_lt(a, b) || seq_lt(b, a) || a == b,
    decreases a.len(),
{
    if a.len() == 0 && b.len() == 0 {
        assert(a =~= b);
    } else if a.len() > 0 && b.len() > 0 && a[0] == b[0] {
        lemma_lt_total(a.drop_first(), b.drop_first());
        if a.drop_first() == b.drop_first() {
            assert(a.len() == a.drop_first().len() + 1);
            assert(b.len() == b.drop_first().len() + 1);
            assert(a[0] == b[0]);
            assert(a =~= b) by {
                assert forall|i: int| 0 <= i < a.len() implies a[i] == b[i] by {
                    if i > 0 {
                        assert(a[i] == a.drop_first()[i - 1]);
                        assert(b[i] == b.drop_first()[i - 1]);
                    }
                }
            }
        }
    }
}

pub proof fn lemma_lt_asymmetric(a: Seq<char>, b: Seq<char>)
    requires
        seq_lt(a, b),
    ensures
        !seq_lt(b, a),
        a != b,
{
    lemma_lt_irreflexive(a);
    if seq_lt(b, a) {
        lemma_lt_transitive(a, b, a);
    }
}

/// `a < b` on character slices.
pub fn chars_lt(a: &[char], b: &[char]) -> (r: bool)
    ensures
        r == seq_lt(a@, b@),
{
    let mut i: usize = 0;
    assert(a@.skip(0) =~= a@);
    assert(b@.skip(0) =~= b@);
    loop
        invariant
            i <= a.len(),
            i <= b.len(),
            seq_lt(a@, b@) == seq_lt(a@.skip(i as int), b@.skip(i as int)),
        decreases a.len() - i,
    {
        if i == a.len() {
            return i < b.len();
        }
        if i == b.len() {
            return false;
        }
        let x = a[i];
        let y = b[i];
        if x < y {
            return true;
        }
        if x > y {
            return false;
        }
        assert(a@.skip(i as int).drop_first() =~= a@.skip(i + 1));
        assert(b@.skip(i as int).drop_first() =~= b@.skip(i + 1));
        i += 1;
    }
}

/// Strictly ascending.
pub open spec fn ascending(s: Seq<Seq<char>>) -> bool {
    forall|i: int, j: int| 0 <= i < j < s.len() ==> seq_lt(#[trigger] s[i], #[trigger] s[j])
}

/// Inserts `x` into the strictly ascending `v` unless it is already there.
pub fn insert_sorted(v: &mut Vec<String>, x: String)
    requires
        ascending(string_views(old(v)@)),
    ensures
        ascending(string_views(final(v)@)),
        string_views(final(v)@).to_set() == string_views(old(v)@).to_set().insert(x@),
{
    let xc = chars_of(x.as_str());
    let mut p: usize = 0;
    while p < v.len()
        invariant
            p <= v.len(),
            xc@ == x@,
            forall|k: int| 0 <= k < p ==> seq_lt(#[trigger] string_views(v@)[k], x@),
        ensures
            p <= v.len(),
            forall|k: int| 0 <= k < p ==> seq_lt(#[trigger] string_views(v@)[k], x@),
            p == v.len() || !seq_lt(string_views(v@)[p as int], x@),
        decreases v.len() - p,
    {
        let vc = chars_of(v[p].as_str());
        assert(vc@ == string_views(v@)[p as int]);
        if !chars_lt(vc.as_slice(), xc.as_slice()) {
            break;
        }
        p += 1;
    }
    let ghost old_v = v@;
    if p < v.len() {
        let vc = chars_of(v[p].as_str());
        assert(vc@ == string_views(v@)[p as int]);
        if !chars_lt(xc.as_slice(), vc.as_slice()) {
            proof {
                lemma_lt_total(string_views(v@)[p as int], x@);
                assert(string_views(v@)[p as int] == x@);
                assert(string_views(v@).to_set().insert(x@) =~= string_views(v@).to_set()) by {
                    assert(string_views(v@).to_set().contains(string_views(v@)[p as int]));
                }
            }
            return;
        }
        proof {
            assert(seq_lt(x@, string_views(v@)[p as int]));
        }
    }
    v.insert(p, x);
    proof {
        let nv = string_views(v@);
        let ov = string_views(old_v);
        assert(nv =~= ov.insert(p as int, x@));
        assert forall|i: int, j: int| 0 <= i < j < nv.len() implies seq_lt(
            #[trigger] nv[i],
            #[trigger] nv[j],
        ) by {
            if j < p {
            } else if j == p {
            } else if i < p {
                assert(seq_lt(ov[i], x@));
                if j - 1 > p {
                    assert(seq_lt(ov[p as int], ov[j - 1]));
                    lemma_lt_transitive(x@, ov[p as int], ov[j - 1]);
                }
                lemma_lt_transitive(ov[i], x@, ov[j - 1]);
            } else if i == p {
                if j - 1 > p {
                    assert(seq_lt(ov[p as int], ov[j - 1]));
                    lemma_lt_transitive(x@, ov[p as int], ov[j - 1]);
                }
            } else {
                assert(nv[i] == ov[i - 1]);
                assert(nv[j] == ov[j - 1]);
            }
        }
        assert(nv.to_set() =~= ov.to_set().insert(x@)) by {
            assert forall|y: Seq<char>| nv.to_set().contains(y) implies ov.to_set().insert(
                x@,
            ).contains(y) by {
                let k = choose|k: int| 0 <= k < nv.len() && nv[k] == y;
                if k < p {
                    assert(ov[k] == y);
                } else if k > p {
                    assert(ov[k - 1] == y);
                }
            }
            assert forall|y: Seq<char>| ov.to_set().insert(x@).contains(y) implies nv.to_set().contains(
                y,
            ) by {
                if y == x@ {
                    assert(nv[p as int] == y);
                } else {
                    let k = choose|k: int| 0 <= k < ov.len() && ov[k] == y;
                    if k < p {
                        assert(nv[k] == y);
                    } else {
                        assert(nv[k + 1] == y);
                    }
                }
            }
        }
    }
}

} // verus!
