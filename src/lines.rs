//! Lines of a text and their indentation.

use vstd::prelude::*;
use crate::text::{chars_of, push_char};

verus! {

/// Splits `s` at every newline; the result always holds at least one piece.
pub open spec fn split_nl(s: Seq<char>) -> Seq<Seq<char>>
    decreases s.len(),
{
    if s.len() == 0 {
        seq![Seq::<char>::empty()]
    } else if s.last() == '\n' {
        split_nl(s.drop_last()).push(Seq::<char>::empty())
    } else {
        let r = split_nl(s.drop_last());
        r.update(r.len() - 1, r.last().push(s.last()))
    }
}

/// The newline-separated pieces of `s`, where one final newline ends the last
/// piece rather than starting an empty one.
pub open spec fn lf_lines(s: Seq<char>) -> Seq<Seq<char>> {
    if s.len() == 0 {
        Seq::empty()
    } else if s.last() == '\n' {
        split_nl(s.drop_last())
    } else {
        split_nl(s)
    }
}

/// The character at `i` is a carriage return that ends a line together with the newline after it.
pub open spec fn dropped_cr(s: Seq<char>, i: int) -> bool {
    &&& 0 <= i
    &&& i + 1 < s.len()
    &&& s[i] == '\r'
    &&& s[i + 1] == '\n'
}

/// The first `k` characters of `s` without the carriage returns of line endings.
pub open spec fn kept(s: Seq<char>, k: int) -> Seq<char>
    decreases k,
{
    if k <= 0 {
        Seq::empty()
    } else if dropped_cr(s, k - 1) {
        kept(s, k - 1)
    } else {
        kept(s, k - 1).push(s[k - 1])
    }
}

/// `s` with every `\r\n` line ending written as `\n`.
pub open spec fn crlf_to_lf(s: Seq<char>) -> Seq<char> {
    kept(s, s.len() as int)
}

/// The lines of `s`: it is split at `\n` and at `\r\n`, and one final line
/// ending ends the last line rather than starting an empty one.
pub open spec fn lines_of(s: Seq<char>) -> Seq<Seq<char>> {
    lf_lines(crlf_to_lf(s))
}

pub open spec fn no_crlf(s: Seq<char>) -> bool {
    forall|i: int| 0 <= i < s.len() ==> !dropped_cr(s, i)
}

proof fn lemma_kept_identity(s: Seq<char>, k: int)
    requires
        no_crlf(s),
        0 <= k <= s.len(),
    ensures
        kept(s, k) == s.take(k),
    decreases k,
{
    if k > 0 {
        lemma_kept_identity(s, k - 1);
        assert(s.take(k - 1).push(s[k - 1]) == s.take(k));
    } else {
        assert(s.take(0) == Seq::<char>::empty());
    }
}

/// Text without `\r\n` is its own LF form.
pub proof fn lemma_crlf_identity(s: Seq<char>)
    requires
        no_crlf(s),
    ensures
        crlf_to_lf(s) == s,
{
    lemma_kept_identity(s, s.len() as int);
    assert(s.take(s.len() as int) == s);
}

proof fn lemma_kept_concat(a: Seq<char>, b: Seq<char>, k: int)
    requires
        a.len() == 0 || a.last() != '\r',
        0 <= k <= a.len() + b.len(),
    ensures
        k <= a.len() ==> kept(a + b, k) == kept(a, k),
        k >= a.len() ==> kept(a + b, k) == crlf_to_lf(a) + kept(b, k - a.len()),
    decreases k,
{
    let s = a + b;
    if k > 0 {
        lemma_kept_concat(a, b, k - 1);
        let i = k - 1;
        if k <= a.len() {
            assert(s[i] == a[i]);
            if i + 1 < a.len() {
                assert(s[i + 1] == a[i + 1]);
            }
            assert(dropped_cr(s, i) == dropped_cr(a, i));
        } else {
            assert(s[i] == b[i - a.len()]);
            if i + 1 < s.len() {
                assert(s[i + 1] == b[i + 1 - a.len()]);
            }
            assert(dropped_cr(s, i) == dropped_cr(b, i - a.len()));
            if k - 1 == a.len() {
                assert(kept(b, 0) == Seq::<char>::empty());
            }
        }
    }
}

/// Converting line endings splits at any point not right after a carriage return.
pub proof fn lemma_crlf_concat(a: Seq<char>, b: Seq<char>)
    requires
        a.len() == 0 || a.last() != '\r',
    ensures
        crlf_to_lf(a + b) == crlf_to_lf(a) + crlf_to_lf(b),
{
    lemma_kept_concat(a, b, (a.len() + b.len()) as int);
    assert((a + b).len() == a.len() + b.len());
}

pub proof fn lemma_no_crlf_concat(a: Seq<char>, b: Seq<char>)
    requires
        no_crlf(a),
        no_crlf(b),
        !(a.len() > 0 && a.last() == '\r' && b.len() > 0 && b[0] == '\n'),
    ensures
        no_crlf(a + b),
{
    let s = a + b;
    assert forall|i: int| 0 <= i < s.len() implies !dropped_cr(s, i) by {
        if i < a.len() {
            if i + 1 < a.len() {
                assert(!dropped_cr(a, i));
            }
        } else {
            assert(!dropped_cr(b, i - a.len()));
        }
    }
}

pub open spec fn no_newline(l: Seq<char>) -> bool {
    forall|j: int| 0 <= j < l.len() ==> l[j] != '\n'
}

pub open spec fn tabs(n: nat) -> Seq<char> {
    Seq::new(n, |i: int| '\t')
}

/// A line indented by `n` tabs; a blank line stays blank.
pub open spec fn pad(l: Seq<char>, n: nat) -> Seq<char> {
    if l.len() == 0 {
        l
    } else {
        tabs(n) + l
    }
}

/// Each line indented and followed by a newline.
pub open spec fn terminated(ls: Seq<Seq<char>>, n: nat) -> Seq<char>
    decreases ls.len(),
{
    if ls.len() == 0 {
        Seq::empty()
    } else {
        terminated(ls.drop_last(), n) + pad(ls.last(), n) + seq!['\n']
    }
}

/// The lines indented and joined by newlines.
pub open spec fn joined(ls: Seq<Seq<char>>, n: nat) -> Seq<char> {
    if ls.len() == 0 {
        Seq::empty()
    } else {
        terminated(ls.drop_last(), n) + pad(ls.last(), n)
    }
}

/// `s` with each of its lines indented by `n` tabs.
pub open spec fn indent_text(s: Seq<char>, n: nat) -> Seq<char> {
    joined(lines_of(s), n)
}

pub proof fn lemma_split_nl_len(s: Seq<char>)
    ensures
        split_nl(s).len() >= 1,
        split_nl(s).last().len() == 0 <==> (s.len() == 0 || s.last() == '\n'),
    decreases s.len(),
{
    if s.len() > 0 {
        lemma_split_nl_len(s.drop_last());
    }
}

pub proof fn lemma_split_nl_no_newline(s: Seq<char>)
    ensures
        forall|k: int| 0 <= k < split_nl(s).len() ==> no_newline(#[trigger] split_nl(s)[k]),
    decreases s.len(),
{
    if s.len() > 0 {
        lemma_split_nl_no_newline(s.drop_last());
        lemma_split_nl_len(s.drop_last());
    }
}

pub proof fn lemma_lines_no_newline(s: Seq<char>)
    ensures
        forall|k: int| 0 <= k < lf_lines(s).len() ==> no_newline(#[trigger] lf_lines(s)[k]),
{
    if s.len() > 0 {
        lemma_split_nl_no_newline(s.drop_last());
        lemma_split_nl_no_newline(s);
    }
}

proof fn lemma_split_nl_plain(a: Seq<char>)
    requires
        no_newline(a),
    ensures
        split_nl(a) == seq![a],
    decreases a.len(),
{
    if a.len() > 0 {
        lemma_split_nl_plain(a.drop_last());
        assert(a.drop_last().push(a.last()) == a);
        assert(seq![a.drop_last()].update(0, a) == seq![a]);
    } else {
        assert(a == Seq::<char>::empty());
    }
}

proof fn lemma_split_nl_after_line(a: Seq<char>, r: Seq<char>)
    requires
        no_newline(a),
    ensures
        split_nl(a + seq!['\n'] + r) == seq![a] + split_nl(r),
    decreases r.len(),
{
    let t = a + seq!['\n'] + r;
    if r.len() == 0 {
        assert(t.drop_last() == a);
        lemma_split_nl_plain(a);
        assert(seq![a].push(Seq::<char>::empty()) == seq![a] + split_nl(r));
    } else {
        assert(t.drop_last() == a + seq!['\n'] + r.drop_last());
        lemma_split_nl_after_line(a, r.drop_last());
        lemma_split_nl_len(r.drop_last());
        let s = split_nl(r.drop_last());
        if r.last() == '\n' {
            assert((seq![a] + s).push(Seq::<char>::empty()) == seq![a] + s.push(Seq::<char>::empty()));
        } else {
            let u = seq![a] + s;
            assert(u.update(u.len() - 1, u.last().push(r.last()))
                == seq![a] + s.update(s.len() - 1, s.last().push(r.last())));
        }
    }
}

/// A line followed by a newline contributes exactly itself as the first line.
pub proof fn lemma_lines_after_line(a: Seq<char>, r: Seq<char>)
    requires
        no_newline(a),
    ensures
        lf_lines(a + seq!['\n'] + r) == seq![a] + lf_lines(r),
{
    let t = a + seq!['\n'] + r;
    if r.len() == 0 {
        assert(t.drop_last() == a);
        lemma_split_nl_plain(a);
        assert(seq![a] + lf_lines(r) == seq![a]);
    } else if r.last() == '\n' {
        assert(t.drop_last() == a + seq!['\n'] + r.drop_last());
        lemma_split_nl_after_line(a, r.drop_last());
    } else {
        lemma_split_nl_after_line(a, r);
    }
}

/// A line that does not end in a carriage return.
pub open spec fn ends_clean(l: Seq<char>) -> bool {
    l.len() == 0 || l.last() != '\r'
}

pub proof fn lemma_no_newline_no_crlf(l: Seq<char>)
    requires
        no_newline(l),
    ensures
        no_crlf(l),
{
    assert forall|i: int| 0 <= i < l.len() implies !dropped_cr(l, i) by {
        if i + 1 < l.len() {
            assert(l[i + 1] != '\n');
        }
    }
}

proof fn lemma_terminated_no_crlf(ls: Seq<Seq<char>>, n: nat)
    requires
        forall|k: int| 0 <= k < ls.len() ==> no_newline(#[trigger] ls[k]) && ends_clean(ls[k]),
    ensures
        no_crlf(terminated(ls, n)),
        terminated(ls, n).len() == 0 || terminated(ls, n).last() == '\n',
    decreases ls.len(),
{
    if ls.len() > 0 {
        let p = ls.drop_last();
        let e = ls.last();
        assert forall|k: int| 0 <= k < p.len() implies no_newline(#[trigger] p[k]) && ends_clean(p[k]) by {
            assert(p[k] == ls[k]);
        }
        lemma_terminated_no_crlf(p, n);
        let t = terminated(p, n);
        let pe = pad(e, n);
        lemma_pad_no_newline(e, n);
        lemma_no_newline_no_crlf(pe);
        lemma_no_crlf_concat(t, pe);
        assert(no_crlf(seq!['\n']));
        if pe.len() > 0 {
            assert((t + pe).last() == pe.last());
            assert(pe.last() == e.last());
        } else {
            assert(t + pe == t);
        }
        lemma_no_crlf_concat(t + pe, seq!['\n']);
    }
}

/// Joined lines that have no line break and do not end in a carriage return
/// hold no `\r\n` and do not end in a carriage return.
pub proof fn lemma_joined_no_crlf(ls: Seq<Seq<char>>, n: nat)
    requires
        forall|k: int| 0 <= k < ls.len() ==> no_newline(#[trigger] ls[k]) && ends_clean(ls[k]),
    ensures
        no_crlf(joined(ls, n)),
        ends_clean(joined(ls, n)),
{
    if ls.len() > 0 {
        let p = ls.drop_last();
        let e = ls.last();
        assert forall|k: int| 0 <= k < p.len() implies no_newline(#[trigger] p[k]) && ends_clean(p[k]) by {
            assert(p[k] == ls[k]);
        }
        lemma_terminated_no_crlf(p, n);
        let t = terminated(p, n);
        let pe = pad(e, n);
        lemma_pad_no_newline(e, n);
        lemma_no_newline_no_crlf(pe);
        lemma_no_crlf_concat(t, pe);
        if pe.len() > 0 {
            assert((t + pe).last() == pe.last());
            assert(pe.last() == e.last());
        } else {
            assert(t + pe == t);
        }
    }
}

pub proof fn lemma_pad_no_newline(l: Seq<char>, n: nat)
    requires
        no_newline(l),
    ensures
        no_newline(pad(l, n)),
{
    if l.len() > 0 {
        assert forall|j: int| 0 <= j < pad(l, n).len() implies pad(l, n)[j] != '\n' by {
            if j >= n {
                assert(pad(l, n)[j] == l[j - n]);
            }
        }
    }
}

/// The lines of indented lines followed by more text.
pub proof fn lemma_lines_of_joined_then(ls: Seq<Seq<char>>, n: nat, r: Seq<char>)
    requires
        ls.len() >= 1,
        forall|k: int| 0 <= k < ls.len() ==> no_newline(#[trigger] ls[k]),
    ensures
        lf_lines(joined(ls, n) + seq!['\n'] + r)
            == ls.map_values(|l: Seq<char>| pad(l, n)) + lf_lines(r),
    decreases ls.len(),
{
    let e = ls.last();
    lemma_pad_no_newline(e, n);
    if ls.len() == 1 {
        assert(ls.drop_last() == Seq::<Seq<char>>::empty());
        assert(joined(ls, n) == pad(e, n));
        lemma_lines_after_line(pad(e, n), r);
        assert(ls.map_values(|l: Seq<char>| pad(l, n)) == seq![pad(e, n)]);
    } else {
        let p = ls.drop_last();
        assert(p.drop_last() == ls.drop_last().drop_last());
        assert(joined(ls, n) + seq!['\n'] + r
            == joined(p, n) + seq!['\n'] + (pad(e, n) + seq!['\n'] + r));
        lemma_lines_of_joined_then(p, n, pad(e, n) + seq!['\n'] + r);
        lemma_lines_after_line(pad(e, n), r);
        assert(ls.map_values(|l: Seq<char>| pad(l, n))
            == p.map_values(|l: Seq<char>| pad(l, n)) + seq![pad(e, n)]);
    }
}

/// Indenting lines and splitting the result again gives back the indented lines.
pub proof fn lemma_lines_of_joined(ls: Seq<Seq<char>>, n: nat)
    requires
        ls.len() >= 1,
        ls.last().len() > 0,
        forall|k: int| 0 <= k < ls.len() ==> no_newline(#[trigger] ls[k]),
    ensures
        lf_lines(joined(ls, n)) == ls.map_values(|l: Seq<char>| pad(l, n)),
{
    let e = ls.last();
    lemma_pad_no_newline(e, n);
    let pe = pad(e, n);
    assert(pe.len() > 0 && pe.last() == e.last());
    lemma_split_nl_plain(pe);
    if ls.len() == 1 {
        assert(joined(ls, n) == pe);
        assert(ls.map_values(|l: Seq<char>| pad(l, n)) == seq![pe]);
    } else {
        let p = ls.drop_last();
        assert(joined(ls, n) == joined(p, n) + seq!['\n'] + pe);
        lemma_lines_of_joined_then(p, n, pe);
        assert(ls.map_values(|l: Seq<char>| pad(l, n))
            == p.map_values(|l: Seq<char>| pad(l, n)) + seq![pe]);
    }
}

/// `v` with every `\r\n` line ending written as `\n`.
fn drop_line_end_cr(v: &Vec<char>) -> (r: Vec<char>)
    ensures
        r@ == crlf_to_lf(v@),
{
    let mut r: Vec<char> = Vec::new();
    let mut i: usize = 0;
    while i < v.len()
        invariant
            i <= v@.len(),
            r@ == kept(v@, i as int),
        decreases v@.len() - i,
    {
        if !(v[i] == '\r' && i + 1 < v.len() && v[i + 1] == '\n') {
            r.push(v[i]);
        }
        i = i + 1;
    }
    r
}

/// Appends `n` tabs.
fn push_tabs(out: &mut String, n: usize)
    ensures
        final(out)@ == old(out)@ + tabs(n as nat),
{
    let mut i: usize = 0;
    while i < n
        invariant
            i <= n,
            out@ == old(out)@ + tabs(i as nat),
        decreases n - i,
    {
        push_char(out, '\t');
        assert(tabs((i + 1) as nat) == tabs(i as nat).push('\t'));
        i = i + 1;
    }
}

/// Indents every line of `block` by `level` tabs and joins the lines with newlines.
/// Blank lines stay blank; a final line ending of `block` is not kept, and a
/// `\r\n` line ending becomes `\n`.
pub fn indent_block(block: &str, level: usize) -> (r: String)
    ensures
        r@ == indent_text(block@, level as nat),
{
    let v = drop_line_end_cr(&chars_of(block));
    let m = if v.len() > 0 && v[v.len() - 1] == '\n' { v.len() - 1 } else { v.len() };
    let ghost n = level as nat;
    let mut out = String::new();
    let mut i: usize = 0;
    while i < m
        invariant
            m <= v@.len(),
            i <= m,
            n == level as nat,
            out@ == joined(split_nl(v@.take(i as int)), n),
        decreases m - i,
    {
        let c = v[i];
        let ghost t = v@.take(i as int);
        let ghost l = split_nl(t);
        proof {
            lemma_split_nl_len(t);
            assert(v@.take(i + 1).drop_last() == t);
        }
        let ghost before = out@;
        proof {
            if i > 0 {
                assert(t.last() == v@[i - 1]);
            }
        }
        if c == '\n' {
            push_char(&mut out, '\n');
            assert(l.push(Seq::<char>::empty()).drop_last() == l);
        } else {
            // the new character extends the last line
            let ghost head = terminated(l.drop_last(), n);
            assert(l.update(l.len() - 1, l.last().push(c)).drop_last() == l.drop_last());
            if i == 0 || v[i - 1] == '\n' {
                push_tabs(&mut out, level);
                push_char(&mut out, c);
                assert(pad(l.last().push(c), n) =~= tabs(n) + seq![c]);
                assert(out@ =~= head + (tabs(n) + seq![c]));
            } else {
                push_char(&mut out, c);
                assert(pad(l.last().push(c), n) =~= pad(l.last(), n).push(c));
                assert(out@ =~= head + pad(l.last(), n).push(c));
            }
        }
        i = i + 1;
    }
    proof {
        let s = v@;
        if s.len() == 0 {
            assert(s.take(0) == s);
        } else if s.last() == '\n' {
            assert(s.take(m as int) == s.drop_last());
        } else {
            assert(s.take(m as int) == s);
        }
    }
    out
}

} // verus!
