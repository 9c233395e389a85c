//! Module keys: a file path with the extension of its file name removed.

use vstd::prelude::*;
use crate::text::{chars_of, push_range};

verus! {

/// The last component of `p` is the parent directory `..`, which has no file name.
pub open spec fn ends_in_parent(p: Seq<char>) -> bool {
    &&& p.len() >= 2
    &&& p[p.len() - 1] == '.'
    &&& p[p.len() - 2] == '.'
    &&& (p.len() == 2 || p[p.len() - 3] == '/')
}

/// `i` is the dot that starts the extension of the last component of `p`:
/// the last dot of the file name, not its first character, with no separator after it.
pub open spec fn is_extension_dot(p: Seq<char>, i: int) -> bool {
    &&& 0 < i < p.len()
    &&& p[i] == '.'
    &&& p[i - 1] != '/'
    &&& forall|j: int| i < j < p.len() ==> p[j] != '.' && p[j] != '/'
    &&& !ends_in_parent(p)
}

pub open spec fn has_extension(p: Seq<char>) -> bool {
    exists|i: int| is_extension_dot(p, i)
}

/// The key under which the file at `p` is registered in a bundle.
pub open spec fn module_key(p: Seq<char>) -> Seq<char> {
    if has_extension(p) {
        p.subrange(0, choose|i: int| is_extension_dot(p, i))
    } else {
        p
    }
}

pub(crate) proof fn lemma_extension_dot_unique(p: Seq<char>, i: int, k: int)
    requires
        is_extension_dot(p, i),
        is_extension_dot(p, k),
    ensures
        i == k,
{
}

/// The module key of a path: the path without the extension of its file name.
/// A file name whose only dot is its first character has no extension.
pub fn path_without_extension(path: &str) -> (r: String)
    ensures
        r@ == module_key(path@),
{
    let v = chars_of(path);
    let n = v.len();
    // look backwards for the last dot or separator
    let mut i = n;
    while i > 0 && v[i - 1] != '.' && v[i - 1] != '/'
        invariant
            i <= n == v@.len(),
            forall|j: int| i <= j < n ==> v@[j] != '.' && v@[j] != '/',
        decreases i,
    {
        i = i - 1;
    }
    let parent = n >= 2 && v[n - 1] == '.' && v[n - 2] == '.' && (n == 2 || v[n - 3] == '/');
    let mut r = String::new();
    if i >= 2 && v[i - 1] == '.' && v[i - 2] != '/' && !parent {
        let ghost d = (i - 1) as int;
        assert(is_extension_dot(v@, d));
        assert forall|k: int| is_extension_dot(v@, k) implies k == d by {
            lemma_extension_dot_unique(v@, d, k);
        }
        push_range(&mut r, &v, 0, i - 1);
    } else {
        assert forall|k: int| !is_extension_dot(v@, k) by {
            if is_extension_dot(v@, k) {
                if k < i - 1 {
                    assert(v@[i - 1] == '.' || v@[i - 1] == '/');
                }
                assert(!ends_in_parent(v@));
            }
        }
        push_range(&mut r, &v, 0, n);
        assert(v@.subrange(0, n as int) == v@);
    }
    r
}

/// A path whose file name has exactly one extension loses that extension and its dot.
pub proof fn lemma_key_drops_single_extension(stem: Seq<char>, ext: Seq<char>)
    requires
        stem.len() > 0,
        stem.last() != '/',
        forall|j: int| 0 <= j < ext.len() ==> ext[j] != '.' && ext[j] != '/',
        !ends_in_parent(stem + seq!['.'] + ext),
    ensures
        module_key(stem + seq!['.'] + ext) == stem,
{
    let p = stem + seq!['.'] + ext;
    let d = stem.len() as int;
    assert(is_extension_dot(p, d)) by {
        assert forall|j: int| d < j < p.len() implies p[j] != '.' && p[j] != '/' by {
            assert(p[j] == ext[j - d - 1]);
        }
    }
    let c = choose|i: int| is_extension_dot(p, i);
    lemma_extension_dot_unique(p, d, c);
    assert(p.subrange(0, d) == stem);
}

/// A path whose file name holds no dot is its own key.
pub proof fn lemma_key_without_extension(dir: Seq<char>, name: Seq<char>)
    requires
        dir.len() == 0 || dir.last() == '/',
        forall|j: int| 0 <= j < name.len() ==> name[j] != '.' && name[j] != '/',
    ensures
        module_key(dir + name) == dir + name,
{
    let p = dir + name;
    assert forall|i: int| !is_extension_dot(p, i) by {
        if is_extension_dot(p, i) {
            if i >= dir.len() {
                assert(p[i] == name[i - dir.len()]);
            } else {
                assert(p[dir.len() - 1] == '/');
            }
        }
    }
}

/// A dotfile without a further dot keeps its leading dot: it is its own key.
pub proof fn lemma_key_of_dotfile(dir: Seq<char>, name: Seq<char>)
    requires
        dir.len() == 0 || dir.last() == '/',
        forall|j: int| 0 <= j < name.len() ==> name[j] != '.' && name[j] != '/',
    ensures
        module_key(dir + seq!['.'] + name) == dir + seq!['.'] + name,
{
    let p = dir + seq!['.'] + name;
    let d = dir.len() as int;
    assert forall|i: int| !is_extension_dot(p, i) by {
        if is_extension_dot(p, i) {
            if i > d {
                assert(p[i] == name[i - d - 1]);
            } else if i == d {
                assert(p[i - 1] == dir.last());
            } else {
                assert(p[d] == '.');
            }
        }
    }
}

/// The parent directory `..` has no file name, hence no extension: it is its own key.
pub proof fn lemma_key_of_parent(dir: Seq<char>)
    requires
        dir.len() == 0 || dir.last() == '/',
    ensures
        module_key(dir + seq!['.', '.']) == dir + seq!['.', '.'],
{
    let p = dir + seq!['.', '.'];
    assert(p[p.len() - 1] == '.' && p[p.len() - 2] == '.');
    if dir.len() > 0 {
        assert(p[p.len() - 3] == dir.last());
    }
    assert(ends_in_parent(p));
}

} // verus!
