//! Assembling a project's bundle from its module sources.

use vstd::prelude::*;
use vstd::string::StringExecFns;
use crate::key::{module_key, path_without_extension};
use crate::project::{views, Project};
use crate::text::chars_of;
use crate::wrap::{entry_call, insert_entry_point, insert_module, module_block};

verus! {

/// The module table entries for the files `paths`, whose sources are `codes`.
pub open spec fn table_entries(paths: Seq<Seq<char>>, codes: Seq<Seq<char>>, accessor: Seq<char>) -> Seq<char>
    decreases paths.len(),
{
    if paths.len() == 0 || codes.len() != paths.len() {
        Seq::empty()
    } else {
        table_entries(paths.drop_last(), codes.drop_last(), accessor)
            + module_block(module_key(paths.last()), codes.last(), accessor, 1)
    }
}

/// A whole bundle: the runtime preamble, the module table, and the call of the entry module.
pub open spec fn bundle_text(
    preamble: Seq<char>,
    paths: Seq<Seq<char>>,
    codes: Seq<Seq<char>>,
    entry_point: Seq<char>,
    accessor: Seq<char>,
) -> Seq<char> {
    preamble + "\nlocal files = {"@ + table_entries(paths, codes, accessor) + "\n}\n"@
        + entry_call(module_key(entry_point))
}

/// The extension whose files are compiled before they are bundled.
pub open spec fn is_alt_syntax(path: Seq<char>) -> bool {
    exists|i: int| #[trigger] crate::key::is_extension_dot(path, i) && path.subrange(i + 1, path.len() as int) == "fnl"@
}

/// What to do with a file's contents before they are wrapped.
pub enum SourceStep {
    /// The contents are bundled as they are.
    Ready(String),
    /// The contents go through the external compiler; its output is bundled.
    Compile(String),
}

/// Whether the file at `path` is written in the alternate syntax.
pub fn needs_compile(path: &str) -> (r: bool)
    ensures
        r == is_alt_syntax(path@),
{
    let v = chars_of(path);
    let k = path_without_extension(path);
    let kv = chars_of(k.as_str());
    let n = v.len();
    let d = kv.len();
    proof {
        if crate::key::has_extension(path@) {
            let c = choose|i: int| crate::key::is_extension_dot(path@, i);
            assert(d == c);
        }
    }
    if d < n && n - d == 4 && v[d + 1] == 'f' && v[d + 2] == 'n' && v[d + 3] == 'l' {
        proof {
            reveal_strlit("fnl");
            assert(crate::key::is_extension_dot(path@, d as int));
            assert(path@.subrange(d + 1, n as int) =~= "fnl"@);
        }
        true
    } else {
        proof {
            reveal_strlit("fnl");
            if is_alt_syntax(path@) {
                let i = choose|i: int| #[trigger] crate::key::is_extension_dot(path@, i)
                    && path@.subrange(i + 1, path@.len() as int) == "fnl"@;
                let c = choose|i: int| crate::key::is_extension_dot(path@, i);
                crate::key::lemma_extension_dot_unique(path@, i, c);
                let ext = path@.subrange(i + 1, n as int);
                assert(ext.len() == 3);
                assert(ext[0] == 'f' && ext[1] == 'n' && ext[2] == 'l');
                assert(v@[d + 1] == ext[0] && v@[d + 2] == ext[1] && v@[d + 3] == ext[2]);
            }
        }
        false
    }
}

/// Decides how a file's contents reach the bundle: files in the alternate syntax
/// are handed to the compiler, every other file is bundled unchanged.
pub fn source_step(path: &str, contents: String) -> (r: SourceStep)
    ensures
        is_alt_syntax(path@) ==> r == SourceStep::Compile(contents),
        !is_alt_syntax(path@) ==> r == SourceStep::Ready(contents),
{
    if needs_compile(path) {
        SourceStep::Compile(contents)
    } else {
        SourceStep::Ready(contents)
    }
}

impl Project {
    /// The bundle of this project, given the runtime preamble, the source of each
    /// of its files (after compilation, in the order of `files`) and the name of
    /// the dependency accessor.
    pub fn build(&self, preamble: &str, sources: &Vec<String>, require_method: &str) -> (r: String)
        requires
            sources@.len() == self.files@.len(),
        ensures
            r@ == bundle_text(preamble@, views(self.files@), views(sources@), self.entry_point@, require_method@),
    {
        let mut output = String::from_str(preamble);
        output.append("\nlocal files = {");
        let ghost start = output@;
        let mut i: usize = 0;
        while i < self.files.len()
            invariant
                i <= self.files@.len() == sources@.len(),
                start == preamble@ + "\nlocal files = {"@,
                output@ == start + table_entries(
                    views(self.files@).take(i as int),
                    views(sources@).take(i as int),
                    require_method@,
                ),
            decreases self.files@.len() - i,
        {
            let key = path_without_extension(self.files[i].as_str());
            let block = insert_module(key.as_str(), sources[i].as_str(), require_method, 1);
            output.append(block.as_str());
            proof {
                let ps = views(self.files@);
                let cs = views(sources@);
                assert(ps.take(i + 1).drop_last() == ps.take(i as int));
                assert(cs.take(i + 1).drop_last() == cs.take(i as int));
                assert(ps.take(i + 1).last() == self.files@[i as int]@);
                assert(cs.take(i + 1).last() == sources@[i as int]@);
            }
            i = i + 1;
        }
        proof {
            assert(views(self.files@).take(i as int) == views(self.files@));
            assert(views(sources@).take(i as int) == views(sources@));
        }
        output.append("\n}\n");
        let entry_key = path_without_extension(self.entry_point.as_str());
        let epilogue = insert_entry_point(entry_key.as_str());
        output.append(epilogue.as_str());
        output
    }
}

proof fn lemma_table_concat(
    p1: Seq<Seq<char>>,
    c1: Seq<Seq<char>>,
    p2: Seq<Seq<char>>,
    c2: Seq<Seq<char>>,
    accessor: Seq<char>,
)
    requires
        p1.len() == c1.len(),
        p2.len() == c2.len(),
    ensures
        table_entries(p1 + p2, c1 + c2, accessor) == table_entries(p1, c1, accessor) + table_entries(p2, c2, accessor),
    decreases p2.len(),
{
    if p2.len() == 0 {
        assert(p1 + p2 == p1);
        assert(c1 + c2 == c1);
        assert(table_entries(p1, c1, accessor) + Seq::<char>::empty() == table_entries(p1, c1, accessor));
    } else {
        lemma_table_concat(p1, c1, p2.drop_last(), c2.drop_last(), accessor);
        assert((p1 + p2).drop_last() == p1 + p2.drop_last());
        assert((c1 + c2).drop_last() == c1 + c2.drop_last());
        assert((p1 + p2).last() == p2.last());
        assert((c1 + c2).last() == c2.last());
    }
}

/// Each file's entry in the module table wraps exactly the source given for that
/// file, under the file's module key, between the entries of the files before it
/// and after it. With `source_step`, a file in another syntax than the alternate
/// one is thus bundled from its contents byte for byte.
pub proof fn lemma_table_entry_of_file(paths: Seq<Seq<char>>, codes: Seq<Seq<char>>, accessor: Seq<char>, i: int)
    requires
        paths.len() == codes.len(),
        0 <= i < paths.len(),
    ensures
        table_entries(paths, codes, accessor) == table_entries(paths.take(i), codes.take(i), accessor)
            + module_block(module_key(paths[i]), codes[i], accessor, 1)
            + table_entries(paths.skip(i + 1), codes.skip(i + 1), accessor),
{
    let one_p = seq![paths[i]];
    let one_c = seq![codes[i]];
    assert(paths == paths.take(i) + (one_p + paths.skip(i + 1)));
    assert(codes == codes.take(i) + (one_c + codes.skip(i + 1)));
    lemma_table_concat(paths.take(i), codes.take(i), one_p + paths.skip(i + 1), one_c + codes.skip(i + 1), accessor);
    lemma_table_concat(one_p, one_c, paths.skip(i + 1), codes.skip(i + 1), accessor);
    assert(one_p.drop_last() == Seq::<Seq<char>>::empty());
    assert(one_c.drop_last() == Seq::<Seq<char>>::empty());
    assert(table_entries(Seq::<Seq<char>>::empty(), Seq::<Seq<char>>::empty(), accessor) == Seq::<char>::empty());
    assert(one_p.last() == paths[i] && one_c.last() == codes[i]);
    assert(table_entries(one_p, one_c, accessor) == Seq::<char>::empty()
        + module_block(module_key(paths[i]), codes[i], accessor, 1));
    assert(Seq::<char>::empty() + module_block(module_key(paths[i]), codes[i], accessor, 1)
        == module_block(module_key(paths[i]), codes[i], accessor, 1));
}

/// Building a bundle depends on its inputs alone: the same project, sources,
/// preamble and accessor give the same text, byte for byte.
pub proof fn lemma_build_deterministic(
    preamble: Seq<char>,
    paths: Seq<Seq<char>>,
    codes: Seq<Seq<char>>,
    entry_point: Seq<char>,
    accessor: Seq<char>,
    r1: Seq<char>,
    r2: Seq<char>,
)
    requires
        r1 == bundle_text(preamble, paths, codes, entry_point, accessor),
        r2 == bundle_text(preamble, paths, codes, entry_point, accessor),
    ensures
        r1 == r2,
{
}

} // verus!
