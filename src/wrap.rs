//! Wrapping one module's source as an entry of the bundle's module table.

use vstd::prelude::*;
use vstd::string::StringExecFns;
use crate::lines::{
    crlf_to_lf, ends_clean, indent_block, indent_text, joined, lf_lines, lines_of, no_crlf,
    no_newline, pad, tabs, lemma_crlf_concat, lemma_crlf_identity, lemma_joined_no_crlf,
    lemma_lines_after_line, lemma_lines_no_newline, lemma_lines_of_joined,
    lemma_lines_of_joined_then, lemma_no_crlf_concat, lemma_no_newline_no_crlf,
    lemma_pad_no_newline,
};
use crate::text::push_char;

verus! {

/// The statement that gives a module its own dependency accessor and hides the
/// registry plumbing of the enclosing scope.
pub open spec fn accessor_line(accessor: Seq<char>) -> Seq<char> {
    "local "@ + accessor + ", functions, get_require = get_require(functions), nil, nil"@
}

/// A module's source with the accessor statement and a blank line before it.
pub open spec fn injected(code: Seq<char>, accessor: Seq<char>) -> Seq<char> {
    accessor_line(accessor) + seq!['\n', '\n'] + code
}

/// The line that opens the factory function registered under `key`.
pub open spec fn entry_line(key: Seq<char>) -> Seq<char> {
    "[\""@ + key + "\"] = function(functions)"@
}

pub open spec fn end_line() -> Seq<char> {
    "end,"@
}

/// A keyed factory function around `body`.
pub open spec fn factory(key: Seq<char>, body: Seq<char>) -> Seq<char> {
    seq!['\n'] + entry_line(key) + seq!['\n'] + body + seq!['\n'] + end_line() + seq!['\n']
}

/// The module table entry for the module `key` with source `code`, nested `level` deep.
pub open spec fn module_block(key: Seq<char>, code: Seq<char>, accessor: Seq<char>, level: nat) -> Seq<char> {
    indent_text(factory(key, indent_text(injected(code, accessor), 1)), level)
}

/// The invocation of the entry module that ends a bundle.
pub open spec fn entry_call(key: Seq<char>) -> Seq<char> {
    "\nfunctions.new({\n    files = files,\n    modules = {},\n}):require(\""@ + key + "\")"@
}

/// Puts the accessor statement in front of a module's source.
pub fn inject_require(code: &str, require: &str) -> (r: String)
    ensures
        r@ == injected(code@, require@),
{
    let mut r = String::new();
    r.append("local ");
    r.append(require);
    r.append(", functions, get_require = get_require(functions), nil, nil");
    push_char(&mut r, '\n');
    push_char(&mut r, '\n');
    r.append(code);
    assert(r@ =~= injected(code@, require@));
    r
}

/// The module table entry for the module `file` whose source is `code`.
pub fn insert_module(file: &str, code: &str, require: &str, level: usize) -> (r: String)
    ensures
        r@ == module_block(file@, code@, require@, level as nat),
{
    let with_accessor = inject_require(code, require);
    let body = indent_block(with_accessor.as_str(), 1);
    let mut s = String::new();
    push_char(&mut s, '\n');
    s.append("[\"");
    s.append(file);
    s.append("\"] = function(functions)");
    push_char(&mut s, '\n');
    s.append(body.as_str());
    push_char(&mut s, '\n');
    s.append("end,");
    push_char(&mut s, '\n');
    assert(s@ =~= factory(file@, body@));
    indent_block(s.as_str(), level)
}

/// The epilogue that starts the runtime and requires the entry module.
pub fn insert_entry_point(entry_point: &str) -> (r: String)
    ensures
        r@ == entry_call(entry_point@),
{
    let mut r = String::new();
    r.append("\nfunctions.new({\n    files = files,\n    modules = {},\n}):require(\"");
    r.append(entry_point);
    r.append("\")");
    assert(r@ =~= entry_call(entry_point@));
    r
}

proof fn lemma_pad_twice(l: Seq<char>, level: nat)
    ensures
        pad(pad(l, 1), level) == pad(l, level + 1),
{
    if l.len() > 0 {
        assert(tabs(level) + (tabs(1) + l) =~= tabs(level + 1) + l);
    }
}

proof fn lemma_literal_facts(key: Seq<char>, accessor: Seq<char>)
    requires
        no_newline(key),
        no_newline(accessor),
    ensures
        no_newline(entry_line(key)),
        no_newline(accessor_line(accessor)),
        no_newline(end_line()),
        entry_line(key).len() > 0,
        entry_line(key)[0] == '[',
        entry_line(key).last() == ')',
        accessor_line(accessor).len() > 0,
        accessor_line(accessor).last() == 'l',
        end_line().len() > 0,
        end_line()[0] == 'e',
        end_line().last() == ',',
{
    reveal_strlit("local ");
    reveal_strlit(", functions, get_require = get_require(functions), nil, nil");
    reveal_strlit("[\"");
    reveal_strlit("\"] = function(functions)");
    reveal_strlit("end,");
    let e = entry_line(key);
    assert forall|j: int| 0 <= j < e.len() implies e[j] != '\n' by {
        if 2 <= j < 2 + key.len() {
            assert(e[j] == key[j - 2]);
        }
    }
    let a = accessor_line(accessor);
    assert forall|j: int| 0 <= j < a.len() implies a[j] != '\n' by {
        if 6 <= j < 6 + accessor.len() {
            assert(a[j] == accessor[j - 6]);
        }
    }
}

/// The lines of a wrapped module: a blank line, the factory line keyed by the
/// module key, the accessor statement and a blank line, then every line of the
/// source indented by one level more than the factory line, and the closing line.
/// The factory line for the key occurs exactly once. A source line that ends in
/// a carriage return is left out: in the block a newline follows it, and the
/// pair counts as one line ending.
pub proof fn lemma_module_block_lines(key: Seq<char>, code: Seq<char>, accessor: Seq<char>, level: nat)
    requires
        no_newline(key),
        no_newline(accessor),
        forall|k: int| 0 <= k < lines_of(code).len() ==> ends_clean(#[trigger] lines_of(code)[k]),
    ensures
        lines_of(module_block(key, code, accessor, level)) == seq![
            Seq::<char>::empty(),
            pad(entry_line(key), level),
            pad(accessor_line(accessor), level + 1),
            Seq::<char>::empty(),
        ] + lines_of(code).map_values(|l: Seq<char>| pad(l, level + 1)) + seq![pad(end_line(), level)],
        forall|i: int| 0 <= i < lines_of(module_block(key, code, accessor, level)).len() ==>
            (lines_of(module_block(key, code, accessor, level))[i] == pad(entry_line(key), level)
                <==> i == 1),
{
    lemma_literal_facts(key, accessor);
    let empty = Seq::<char>::empty();
    let nl = seq!['\n'];
    let a = accessor_line(accessor);
    let e = entry_line(key);
    let en = end_line();
    assert(no_crlf(nl));
    lemma_no_newline_no_crlf(a);
    lemma_no_newline_no_crlf(e);
    lemma_no_newline_no_crlf(en);
    // the lines of the module's source with the accessor statement
    let x = injected(code, accessor);
    let head = a + seq!['\n', '\n'];
    assert(x == head + code);
    assert(head == (a + nl) + nl);
    lemma_no_crlf_concat(a, nl);
    lemma_no_crlf_concat(a + nl, nl);
    lemma_crlf_identity(head);
    lemma_crlf_concat(head, code);
    let c = crlf_to_lf(code);
    assert(crlf_to_lf(x) == a + nl + (empty + nl + c));
    lemma_lines_after_line(a, empty + nl + c);
    lemma_lines_after_line(empty, c);
    let lx = lines_of(x);
    assert(lx == seq![a, empty] + lines_of(code));
    lemma_lines_no_newline(c);
    assert forall|k: int| 0 <= k < lx.len() implies no_newline(#[trigger] lx[k]) && ends_clean(lx[k]) by {
        if k >= 2 {
            assert(lx[k] == lines_of(code)[k - 2]);
        }
    }
    // the factory around the indented source holds no CRLF
    let y = joined(lx, 1);
    lemma_joined_no_crlf(lx, 1);
    let z = factory(key, y);
    let p1 = nl + e;
    lemma_no_crlf_concat(nl, e);
    lemma_no_crlf_concat(p1, nl);
    let p2 = p1 + nl;
    lemma_no_crlf_concat(p2, y);
    let p3 = p2 + y;
    assert(p3.last() != '\r') by {
        if y.len() > 0 {
            assert(p3.last() == y.last());
        } else {
            assert(p3 == p2);
        }
    }
    lemma_no_crlf_concat(p3, nl);
    lemma_no_crlf_concat(p3 + nl, en);
    lemma_no_crlf_concat(p3 + nl + en, nl);
    assert(z == p3 + nl + en + nl);
    lemma_crlf_identity(z);
    // the lines of the factory
    let rest = en + nl;
    assert(z == empty + nl + (e + nl + (y + nl + rest)));
    lemma_lines_after_line(empty, e + nl + (y + nl + rest));
    lemma_lines_after_line(e, y + nl + rest);
    lemma_lines_of_joined_then(lx, 1, rest);
    assert(rest == en + nl + empty);
    lemma_lines_after_line(en, empty);
    let mx = lx.map_values(|l: Seq<char>| pad(l, 1));
    let lz = lines_of(z);
    assert(lz == seq![empty, e] + mx + seq![en]);
    assert forall|k: int| 0 <= k < lz.len() implies no_newline(#[trigger] lz[k]) && ends_clean(lz[k]) by {
        if 2 <= k < lz.len() - 1 {
            assert(lz[k] == pad(lx[k - 2], 1));
            lemma_pad_no_newline(lx[k - 2], 1);
            if lx[k - 2].len() > 0 {
                assert(lz[k].last() == lx[k - 2].last());
            }
        }
    }
    // the whole entry, indented by the nesting level
    let block = module_block(key, code, accessor, level);
    lemma_joined_no_crlf(lz, level);
    lemma_crlf_identity(block);
    lemma_lines_of_joined(lz, level);
    let lb = lines_of(block);
    assert(lb == lf_lines(block));
    let want = seq![empty, pad(e, level), pad(a, level + 1), empty]
        + lines_of(code).map_values(|l: Seq<char>| pad(l, level + 1)) + seq![pad(en, level)];
    assert(lb.len() == want.len());
    assert forall|i: int| 0 <= i < lb.len() implies lb[i] == want[i] by {
        if 2 <= i < lb.len() - 1 {
            lemma_pad_twice(lx[i - 2], level);
        }
    }
    assert(lb =~= want);
    assert forall|i: int| 0 <= i < lb.len() implies (lb[i] == pad(e, level) <==> i == 1) by {
        let pe = pad(e, level);
        assert(pe[level as int] == '[');
        if i == 0 || i == 3 {
        } else if i == 2 {
            assert(pad(a, level + 1)[level as int] == '\t');
        } else if i == lb.len() - 1 {
            assert(pad(en, level)[level as int] == 'e');
        } else if i > 3 {
            let l = lines_of(code)[i - 4];
            if l.len() > 0 {
                assert(lb[i] == tabs(level + 1) + l);
                assert(lb[i][level as int] == '\t');
            }
        }
    }
}

} // verus!
