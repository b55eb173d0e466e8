//! Whitespace normalization: after the artifact substitutions, every run of
//! two or more spaces collapses to a single space, and every run of three or
//! more newlines collapses to exactly two (keeping paragraph breaks while
//! dropping excessive blank regions).

use vstd::prelude::*;

verus! {

/// `s` with every run of two or more spaces collapsed to one space:
/// a space is dropped exactly when the character before it is a space.
pub open spec fn collapse_spaces(s: Seq<char>) -> Seq<char>
    decreases s.len(),
{
    if s.len() == 0 {
        Seq::empty()
    } else {
        let r = collapse_spaces(s.drop_last());
        if s.len() >= 2 && s[s.len() - 1] == ' ' && s[s.len() - 2] == ' ' {
            r
        } else {
            r.push(s.last())
        }
    }
}

/// How many newline characters end `s`.
pub open spec fn trailing_newlines(s: Seq<char>) -> nat
    decreases s.len(),
{
    if s.len() == 0 {
        0
    } else if s.last() == '\n' {
        trailing_newlines(s.drop_last()) + 1
    } else {
        0
    }
}

/// `s` with every run of three or more newlines collapsed to exactly two:
/// a newline is dropped exactly when two newlines immediately precede it.
pub open spec fn collapse_newlines(s: Seq<char>) -> Seq<char>
    decreases s.len(),
{
    if s.len() == 0 {
        Seq::empty()
    } else {
        let r = collapse_newlines(s.drop_last());
        if s.last() == '\n' && trailing_newlines(s.drop_last()) >= 2 {
            r
        } else {
            r.push(s.last())
        }
    }
}

/// The whole normalization step: spaces first, then newlines, as the
/// cleaning pipeline applies them.
pub open spec fn normalized(s: Seq<char>) -> Seq<char> {
    collapse_newlines(collapse_spaces(s))
}

/// No two adjacent spaces anywhere in `s`.
pub open spec fn no_double_space(s: Seq<char>) -> bool {
    forall|i: int| 0 < i < s.len() ==> !((#[trigger] s[i]) == ' ' && s[i - 1] == ' ')
}

/// No three adjacent newlines anywhere in `s`.
pub open spec fn no_triple_newline(s: Seq<char>) -> bool {
    forall|i: int|
        2 <= i < s.len() ==> !((#[trigger] s[i]) == '\n' && s[i - 1] == '\n' && s[i - 2] == '\n')
}

/// A character appended to a text with no double space keeps it free of
/// double spaces, provided it does not extend a final space.
proof fn lemma_push_no_double_space(r: Seq<char>, c: char)
    requires
        no_double_space(r),
        r.len() > 0 ==> !(c == ' ' && r.last() == ' '),
    ensures
        no_double_space(r.push(c)),
{
    let t = r.push(c);
    assert forall|i: int| 0 < i < t.len() implies !((#[trigger] t[i]) == ' ' && t[i - 1] == ' ') by {
        if i < r.len() {
            assert(t[i] == r[i] && t[i - 1] == r[i - 1]);
        } else {
            assert(t[i] == c);
            assert(i == r.len() && t[i - 1] == r[i - 1]);
        }
    }
}

/// A character appended to a text with no triple newline keeps it free of
/// triple newlines, provided it does not extend a final double newline.
proof fn lemma_push_no_triple_newline(r: Seq<char>, c: char)
    requires
        no_triple_newline(r),
        r.len() >= 2 ==> !(c == '\n' && r[r.len() - 1] == '\n' && r[r.len() - 2] == '\n'),
    ensures
        no_triple_newline(r.push(c)),
{
    let t = r.push(c);
    assert forall|i: int| 2 <= i < t.len() implies !((#[trigger] t[i]) == '\n' && t[i - 1] == '\n'
        && t[i - 2] == '\n') by {
        if i < r.len() {
            assert(t[i] == r[i] && t[i - 1] == r[i - 1] && t[i - 2] == r[i - 2]);
        } else {
            assert(t[i] == c);
            assert(i == r.len() && t[i - 1] == r[i - 1] && t[i - 2] == r[i - 2]);
        }
    }
}

/// Dropping the last character keeps a text free of double spaces and of
/// triple newlines.
proof fn lemma_drop_last_keeps(s: Seq<char>)
    requires
        s.len() > 0,
    ensures
        no_double_space(s) ==> no_double_space(s.drop_last()),
        no_triple_newline(s) ==> no_triple_newline(s.drop_last()),
{
    let p = s.drop_last();
    if no_double_space(s) {
        assert forall|i: int| 0 < i < p.len() implies !((#[trigger] p[i]) == ' ' && p[i - 1]
            == ' ') by {
            assert(p[i] == s[i] && p[i - 1] == s[i - 1]);
        }
    }
    if no_triple_newline(s) {
        assert forall|i: int| 2 <= i < p.len() implies !((#[trigger] p[i]) == '\n' && p[i - 1]
            == '\n' && p[i - 2] == '\n') by {
            assert(p[i] == s[i] && p[i - 1] == s[i - 1] && p[i - 2] == s[i - 2]);
        }
    }
}

/// Collapsing spaces leaves no double space, never empties a non-empty
/// text, and keeps the last character (spaces stay spaces).
proof fn lemma_collapse_spaces_shape(s: Seq<char>)
    ensures
        no_double_space(collapse_spaces(s)),
        s.len() > 0 ==> collapse_spaces(s).len() > 0,
        s.len() > 0 ==> ((collapse_spaces(s).last() == ' ') <==> (s.last() == ' ')),
        s.len() > 0 && s.last() != ' ' ==> collapse_spaces(s).last() == s.last(),
    decreases s.len(),
{
    if s.len() == 0 {
    } else {
        let p = s.drop_last();
        let c = s.last();
        lemma_collapse_spaces_shape(p);
        let r = collapse_spaces(p);
        if s.len() >= 2 && s[s.len() - 1] == ' ' && s[s.len() - 2] == ' ' {
            assert(p.last() == ' ');
        } else {
            assert(collapse_spaces(s) == r.push(c));
            if c == ' ' && r.len() > 0 {
                assert(p.len() > 0 && p.last() != ' ');
                assert(r.last() != ' ');
            }
            lemma_push_no_double_space(r, c);
        }
    }
}

/// A text with no double space is already space-collapsed.
proof fn lemma_collapse_spaces_fixed(s: Seq<char>)
    requires
        no_double_space(s),
    ensures
        collapse_spaces(s) == s,
    decreases s.len(),
{
    if s.len() == 0 {
        assert(collapse_spaces(s) =~= s);
    } else {
        let p = s.drop_last();
        lemma_drop_last_keeps(s);
        lemma_collapse_spaces_fixed(p);
        if s.len() >= 2 && s[s.len() - 1] == ' ' && s[s.len() - 2] == ' ' {
            assert(false);
        } else {
            assert(collapse_spaces(s) == p.push(s.last()));
            assert(p.push(s.last()) =~= s);
        }
    }
}

/// Collapsing newlines leaves no triple newline, caps the trailing newline
/// run at two, and keeps a non-newline last character.
proof fn lemma_collapse_newlines_shape(s: Seq<char>)
    ensures
        no_triple_newline(collapse_newlines(s)),
        trailing_newlines(collapse_newlines(s)) == if trailing_newlines(s) >= 2 {
            2nat
        } else {
            trailing_newlines(s)
        },
        s.len() > 0 ==> collapse_newlines(s).len() > 0,
        s.len() > 0 && s.last() != '\n' ==> collapse_newlines(s).last() == s.last(),
    decreases s.len(),
{
    if s.len() == 0 {
    } else {
        let p = s.drop_last();
        let c = s.last();
        lemma_collapse_newlines_shape(p);
        let r = collapse_newlines(p);
        lemma_trailing_newlines_le(p);
        lemma_trailing_newlines_le(r);
        if c == '\n' && trailing_newlines(p) >= 2 {
            assert(collapse_newlines(s) == r);
            assert(trailing_newlines(s) == trailing_newlines(p) + 1);
        } else {
            assert(collapse_newlines(s) == r.push(c));
            assert(r.push(c).drop_last() =~= r);
            if c == '\n' {
                assert(trailing_newlines(r.push(c)) == trailing_newlines(r) + 1);
            } else {
                assert(trailing_newlines(r.push(c)) == 0);
                assert(trailing_newlines(s) == 0);
            }
            if c == '\n' && r.len() >= 2 && r[r.len() - 1] == '\n' && r[r.len() - 2] == '\n' {
                lemma_trailing_newlines_two(r);
                assert(trailing_newlines(p) >= 2);
                assert(false);
            }
            lemma_push_no_triple_newline(r, c);
        }
    }
}

/// A trailing-newline count never exceeds the length, and a count of at
/// least one pins the last character.
proof fn lemma_trailing_newlines_le(s: Seq<char>)
    ensures
        trailing_newlines(s) <= s.len(),
        trailing_newlines(s) >= 1 ==> s.len() >= 1 && s.last() == '\n',
    decreases s.len(),
{
    if s.len() > 0 {
        lemma_trailing_newlines_le(s.drop_last());
    }
}

/// Two trailing newlines show up as the last two characters.
proof fn lemma_trailing_newlines_two(s: Seq<char>)
    requires
        s.len() >= 2,
        s[s.len() - 1] == '\n',
        s[s.len() - 2] == '\n',
    ensures
        trailing_newlines(s) >= 2,
{
    assert(s.last() == '\n');
    assert(s.drop_last().last() == '\n');
    assert(trailing_newlines(s) == trailing_newlines(s.drop_last()) + 1);
    assert(trailing_newlines(s.drop_last()) == trailing_newlines(s.drop_last().drop_last()) + 1);
}

/// A text with no triple newline is already newline-collapsed.
proof fn lemma_collapse_newlines_fixed(s: Seq<char>)
    requires
        no_triple_newline(s),
    ensures
        collapse_newlines(s) == s,
    decreases s.len(),
{
    if s.len() == 0 {
        assert(collapse_newlines(s) =~= s);
    } else {
        let p = s.drop_last();
        lemma_drop_last_keeps(s);
        lemma_collapse_newlines_fixed(p);
        if s.last() == '\n' && trailing_newlines(p) >= 2 {
            lemma_trailing_newlines_le(p);
            assert(p.last() == '\n');
            assert(trailing_newlines(p.drop_last()) >= 1);
            lemma_trailing_newlines_le(p.drop_last());
            assert(p.drop_last().last() == '\n');
            assert(s[s.len() - 1] == '\n' && s[s.len() - 2] == '\n' && s[s.len() - 3] == '\n');
            assert(false);
        } else {
            assert(collapse_newlines(s) == p.push(s.last()));
            assert(p.push(s.last()) =~= s);
        }
    }
}

/// Collapsing newlines cannot create a double space.
proof fn lemma_collapse_newlines_keeps_no_double_space(s: Seq<char>)
    requires
        no_double_space(s),
    ensures
        no_double_space(collapse_newlines(s)),
    decreases s.len(),
{
    if s.len() > 0 {
        let p = s.drop_last();
        let c = s.last();
        lemma_drop_last_keeps(s);
        lemma_collapse_newlines_keeps_no_double_space(p);
        let r = collapse_newlines(p);
        if c == '\n' && trailing_newlines(p) >= 2 {
        } else {
            assert(collapse_newlines(s) == r.push(c));
            if c == ' ' && r.len() > 0 {
                assert(r.last() != ' ') by {
                    lemma_collapse_newlines_shape(p);
                    lemma_trailing_newlines_le(p);
                    if trailing_newlines(p) >= 1 {
                        assert(trailing_newlines(r) >= 1);
                        lemma_trailing_newlines_le(r);
                        assert(r.last() == '\n');
                    } else {
                        assert(p.len() > 0 ==> r.last() == p.last());
                        assert(p.len() > 0 ==> p.last() != ' ');
                    }
                }
            }
            lemma_push_no_double_space(r, c);
        }
    }
}

/// Normalizing whitespace twice yields what normalizing once yields.
pub proof fn lemma_normalize_idempotent(s: Seq<char>)
    ensures
        normalized(normalized(s)) == normalized(s),
{
    let t = collapse_spaces(s);
    let u = collapse_newlines(t);
    lemma_collapse_spaces_shape(s);
    lemma_collapse_newlines_keeps_no_double_space(t);
    lemma_collapse_spaces_fixed(u);
    lemma_collapse_newlines_shape(t);
    lemma_collapse_newlines_fixed(u);
}

/// Collapses every run of two or more spaces to a single space.
pub fn squeeze_spaces(v: &Vec<char>) -> (out: Vec<char>)
    ensures
        out@ == collapse_spaces(v@),
{
    let mut out: Vec<char> = Vec::new();
    let mut i: usize = 0;
    while i < v.len()
        invariant
            i <= v@.len(),
            out@ == collapse_spaces(v@.take(i as int)),
        decreases v@.len() - i,
    {
        let c = v[i];
        let keep = !(c == ' ' && i > 0 && v[i - 1] == ' ');
        proof {
            let q = v@.take(i + 1);
            assert(q.drop_last() =~= v@.take(i as int));
            assert(q.last() == v@[i as int]);
            assert(q.len() >= 2 ==> q[q.len() - 2] == v@[i - 1]);
        }
        if keep {
            out.push(c);
        }
        i = i + 1;
    }
    assert(v@.take(v@.len() as int) =~= v@);
    out
}

/// Collapses every run of three or more newlines to exactly two.
pub fn squeeze_newlines(v: &Vec<char>) -> (out: Vec<char>)
    ensures
        out@ == collapse_newlines(v@),
{
    let mut out: Vec<char> = Vec::new();
    let mut i: usize = 0;
    while i < v.len()
        invariant
            i <= v@.len(),
            out@ == collapse_newlines(v@.take(i as int)),
        decreases v@.len() - i,
    {
        let c = v[i];
        let keep = !(c == '\n' && i > 1 && v[i - 1] == '\n' && v[i - 2] == '\n');
        proof {
            let p = v@.take(i as int);
            let q = v@.take(i + 1);
            assert(q.drop_last() =~= p);
            assert(q.last() == v@[i as int]);
            if i > 1 && v@[i - 1] == '\n' && v@[i - 2] == '\n' {
                assert(p[p.len() - 1] == v@[i - 1] && p[p.len() - 2] == v@[i - 2]);
                lemma_trailing_newlines_two(p);
            }
            if trailing_newlines(p) >= 2 {
                lemma_trailing_newlines_le(p);
                assert(p.last() == '\n');
                assert(trailing_newlines(p.drop_last()) >= 1);
                lemma_trailing_newlines_le(p.drop_last());
                assert(p.drop_last().last() == '\n');
                assert(v@[i - 1] == '\n' && v@[i - 2] == '\n');
            }
        }
        if keep {
            out.push(c);
        }
        i = i + 1;
    }
    assert(v@.take(v@.len() as int) =~= v@);
    out
}

/// Applies the whole normalization step to a string: spaces collapsed,
/// then newlines collapsed.
pub fn normalize_whitespace(text: &str) -> (r: String)
    ensures
        r@ == normalized(text@),
{
    let v = crate::text::chars_of(text);
    let sp = squeeze_spaces(&v);
    let nl = squeeze_newlines(&sp);
    crate::text::string_from_chars(&nl)
}

} // verus!
