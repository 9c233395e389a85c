//! Projects: what one bundle is made from.

use vstd::prelude::*;
use vstd::string::StringExecFns;
use crate::text::same_text;

verus! {

/// The dialect a project declares. Only the extension of each file decides
/// whether it is compiled; the dialect is carried along.
#[derive(Clone, Copy, Debug, PartialEq, Eq, Structural)]
pub enum LuaVersion {
    Default,
    Lua51,
    Luau,
    Fennel,
}

/// The dialect a manifest names; an unknown name is the default dialect.
pub open spec fn version_named(s: Seq<char>) -> LuaVersion {
    if s == "Lua51"@ {
        LuaVersion::Lua51
    } else if s == "Luau"@ {
        LuaVersion::Luau
    } else if s == "Fennel"@ {
        LuaVersion::Fennel
    } else {
        LuaVersion::Default
    }
}

impl<'a> From<&'a str> for LuaVersion {
    fn from(name: &'a str) -> (r: LuaVersion) {
        LuaVersion::from_name(name)
    }
}

impl<'a> vstd::std_specs::convert::FromSpecImpl<&'a str> for LuaVersion {
    open spec fn obeys_from_spec() -> bool {
        true
    }

    open spec fn from_spec(name: &'a str) -> LuaVersion {
        version_named(name@)
    }
}

impl LuaVersion {
    /// The dialect called `name` in a manifest.
    pub fn from_name(name: &str) -> (r: LuaVersion)
        ensures
            r == version_named(name@),
    {
        if same_text(name, "Lua51") {
            LuaVersion::Lua51
        } else if same_text(name, "Luau") {
            LuaVersion::Luau
        } else if same_text(name, "Fennel") {
            LuaVersion::Fennel
        } else {
            LuaVersion::Default
        }
    }
}

/// Why a project of the manifest is skipped.
#[derive(Clone, Copy, Debug, PartialEq, Eq, Structural)]
pub enum ConfigError {
    /// The project names no entry point.
    MissingEntryPoint,
    /// The entry point does not exist.
    InvalidEntryPoint,
    /// The project has no file list.
    MissingFiles,
    /// A path of the file list does not exist.
    InvalidFile,
    /// A field has a value of the wrong kind.
    WrongType,
}

/// A project's fields as the manifest gives them.
pub struct ProjectFields {
    pub name: Option<String>,
    pub output: Option<String>,
    pub entry_point: Option<String>,
    pub lua_version: Option<String>,
    pub files: Option<Vec<String>>,
}

pub open spec fn opt_view(o: Option<String>) -> Option<Seq<char>> {
    match o {
        Some(s) => Some(s@),
        None => None,
    }
}

/// The bundle's file name: the project's name, or a placeholder, with the Lua extension.
pub open spec fn bundle_name(name: Option<Seq<char>>) -> Seq<char> {
    let base = match name {
        Some(n) => n,
        None => "a"@,
    };
    base + ".lua"@
}

pub open spec fn output_dir(output: Option<Seq<char>>) -> Seq<char> {
    match output {
        Some(o) => o,
        None => "build"@,
    }
}

pub open spec fn version_of(v: Option<Seq<char>>) -> LuaVersion {
    match v {
        Some(s) => version_named(s),
        None => LuaVersion::Default,
    }
}

pub open spec fn any_missing(found: Seq<PathEntry>) -> bool {
    exists|i: int| 0 <= i < found.len() && found[i] is Missing
}

/// The error for which a project is skipped, if any, in the order the checks are made.
pub open spec fn resolve_error(fields: ProjectFields, entry_exists: bool, found: Seq<PathEntry>) -> Option<ConfigError> {
    if fields.entry_point is None {
        Some(ConfigError::MissingEntryPoint)
    } else if !entry_exists {
        Some(ConfigError::InvalidEntryPoint)
    } else if fields.files is None {
        Some(ConfigError::MissingFiles)
    } else if any_missing(found) {
        Some(ConfigError::InvalidFile)
    } else {
        None
    }
}

/// `p` is the project made from `fields`, with the file list expanded as `found` shows it.
pub open spec fn resolved(p: Project, fields: ProjectFields, found: Seq<PathEntry>) -> bool {
    &&& p.name@ == bundle_name(opt_view(fields.name))
    &&& p.output@ == output_dir(opt_view(fields.output))
    &&& p.entry_point@ == fields.entry_point->0@
    &&& views(p.files@) == entries_files(found)
    &&& p.lua_version == version_of(opt_view(fields.lua_version))
}

/// A project from its fields and what was found on disk: whether the entry point
/// exists, and what is at each path of the file list.
pub fn resolve_project(fields: ProjectFields, entry_exists: bool, found: &Vec<PathEntry>) -> (r: Result<Project, ConfigError>)
    requires
        fields.files is Some ==> found@.len() == fields.files->0@.len(),
    ensures
        resolve_error(fields, entry_exists, found@) matches Some(e) ==> r == Err::<Project, ConfigError>(e),
        resolve_error(fields, entry_exists, found@) is None ==> (r is Ok && resolved(r->Ok_0, fields, found@)),
{
    let ghost f = fields;
    let ProjectFields { name, output, entry_point, lua_version, files } = fields;
    let name = match name {
        Some(n) => n.concat(".lua"),
        None => String::from_str("a").concat(".lua"),
    };
    let output = match output {
        Some(o) => o,
        None => String::from_str("build"),
    };
    let entry_point = match entry_point {
        Some(e) => {
            if !entry_exists {
                return Err(ConfigError::InvalidEntryPoint);
            }
            e
        },
        None => {
            return Err(ConfigError::MissingEntryPoint);
        },
    };
    let lua_version = match lua_version {
        Some(v) => LuaVersion::from_name(v.as_str()),
        None => LuaVersion::Default,
    };
    if files.is_none() {
        return Err(ConfigError::MissingFiles);
    }
    let mut expanded: Vec<String> = Vec::new();
    let mut i: usize = 0;
    while i < found.len()
        invariant
            i <= found@.len(),
            f == fields,
            f.entry_point is Some,
            f.files is Some,
            entry_exists,
            forall|j: int| 0 <= j < i ==> !(found@[j] is Missing),
            views(expanded@) == entries_files(found@.subrange(0, i as int)),
        decreases found@.len() - i,
    {
        if let PathEntry::Missing = &found[i] {
            assert(found@[i as int] is Missing);
            return Err(ConfigError::InvalidFile);
        }
        let mut sub = files_from_path(&found[i]);
        proof {
            lemma_views_append(expanded@, sub@);
            lemma_entries_files_push(found@.subrange(0, i as int), found@[i as int]);
            assert(found@.subrange(0, i as int).push(found@[i as int]) == found@.subrange(0, i + 1));
        }
        expanded.append(&mut sub);
        i = i + 1;
    }
    proof {
        assert(found@.subrange(0, i as int) == found@);
    }
    Ok(Project { name, output, entry_point, files: expanded, lua_version })
}

/// One project of the manifest, with its file list expanded.
pub struct Project {
    /// File name of the bundle, extension included.
    pub name: String,
    /// Directory the bundle is written to.
    pub output: String,
    pub entry_point: String,
    /// Every file to bundle, in order; duplicates are kept.
    pub files: Vec<String>,
    pub lua_version: LuaVersion,
}

/// What was found at a path named in a project's file list.
pub enum PathEntry {
    /// A regular file at this path.
    File(String),
    /// A directory, with what was found at each of its entries.
    Dir(Vec<PathEntry>),
    /// Something that is neither a regular file nor a directory.
    Other,
    /// Nothing exists at this path.
    Missing,
}

/// The files found under `es`, in order; directories are expanded recursively.
pub open spec fn entries_files(es: Seq<PathEntry>) -> Seq<Seq<char>>
    decreases es,
{
    if es.len() == 0 {
        Seq::empty()
    } else {
        let rest = entries_files(es.subrange(0, es.len() - 1));
        match es[es.len() - 1] {
            PathEntry::File(p) => rest.push(p@),
            PathEntry::Dir(children) => rest + entries_files(children@),
            PathEntry::Other | PathEntry::Missing => rest,
        }
    }
}

/// The files found at `e`.
pub open spec fn entry_files(e: PathEntry) -> Seq<Seq<char>> {
    entries_files(seq![e])
}

/// Expanding a list of entries with one more entry appends that entry's files.
pub proof fn lemma_entries_files_push(es: Seq<PathEntry>, e: PathEntry)
    ensures
        entries_files(es.push(e)) == entries_files(es) + entry_files(e),
{
    let s = es.push(e);
    assert(s.subrange(0, s.len() - 1) == es);
    let one = seq![e];
    assert(one.subrange(0, 0) == Seq::<PathEntry>::empty());
    assert(entries_files(Seq::<PathEntry>::empty()) == Seq::<Seq<char>>::empty());
    match e {
        PathEntry::File(p) => {
            assert(entries_files(es).push(p@) == entries_files(es) + Seq::<Seq<char>>::empty().push(p@));
        },
        PathEntry::Dir(children) => {
            assert(entry_files(e) == Seq::<Seq<char>>::empty() + entries_files(children@));
            assert(Seq::<Seq<char>>::empty() + entries_files(children@) == entries_files(children@));
        },
        PathEntry::Other | PathEntry::Missing => {
            assert(entries_files(es) + Seq::<Seq<char>>::empty() == entries_files(es));
        },
    }
}

/// A file yields itself, a directory the files of all its entries in order
/// (subdirectories expanded), anything else nothing.
pub proof fn lemma_entry_files(e: PathEntry)
    ensures
        entry_files(e) == match e {
            PathEntry::File(p) => seq![p@],
            PathEntry::Dir(children) => entries_files(children@),
            PathEntry::Other | PathEntry::Missing => Seq::<Seq<char>>::empty(),
        },
{
    let one = seq![e];
    assert(one.subrange(0, one.len() - 1) == Seq::<PathEntry>::empty());
    assert(entries_files(Seq::<PathEntry>::empty()) == Seq::<Seq<char>>::empty());
    match e {
        PathEntry::File(p) => {
            assert(Seq::<Seq<char>>::empty().push(p@) == seq![p@]);
        },
        PathEntry::Dir(children) => {
            assert(Seq::<Seq<char>>::empty() + entries_files(children@) == entries_files(children@));
        },
        PathEntry::Other | PathEntry::Missing => {},
    }
}

proof fn lemma_views_append(a: Seq<String>, b: Seq<String>)
    ensures
        views(a + b) == views(a) + views(b),
{
    assert(views(a + b) =~= views(a) + views(b));
}

/// The files at `entry`: the file itself, or every file under the directory.
pub fn files_from_path(entry: &PathEntry) -> (r: Vec<String>)
    ensures
        views(r@) == entry_files(*entry),
    decreases entry,
{
    let mut files: Vec<String> = Vec::new();
    match entry {
        PathEntry::File(p) => {
            files.push(p.clone());
            proof {
                lemma_entry_files(*entry);
                assert(views(files@) =~= entry_files(*entry));
            }
        },
        PathEntry::Dir(children) => {
            let mut i: usize = 0;
            while i < children.len()
                invariant
                    i <= children@.len(),
                    *entry == PathEntry::Dir(*children),
                    views(files@) == entries_files(children@.subrange(0, i as int)),
                decreases children@.len() - i,
            {
                proof {
                    broadcast use vstd::std_specs::vec::axiom_vec_index_decreases;
                    let c = *children;
                    assert(entry->Dir_0 == c);
                    assert(decreases_to!(*entry => entry->Dir_0));
                    assert(decreases_to!(c => c@));
                    assert(decreases_to!(c@ => c@[i as int]));
                    assert(decreases_to!(*entry => c@[i as int]));
                }
                let mut sub = files_from_path(&children[i]);
                let ghost before = files@;
                proof {
                    lemma_views_append(before, sub@);
                    lemma_entries_files_push(children@.subrange(0, i as int), children@[i as int]);
                    assert(children@.subrange(0, i as int).push(children@[i as int])
                        == children@.subrange(0, i + 1));
                }
                files.append(&mut sub);
                i = i + 1;
            }
            proof {
                assert(children@.subrange(0, i as int) == children@);
                lemma_entry_files(*entry);
            }
        },
        PathEntry::Other | PathEntry::Missing => {
            proof {
                lemma_entry_files(*entry);
                assert(views(files@) =~= entry_files(*entry));
            }
        },
    }
    files
}

pub open spec fn views(v: Seq<String>) -> Seq<Seq<char>> {
    v.map_values(|s: String| s@)
}

} // verus!
