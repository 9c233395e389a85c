//! Reading the build manifest: a TOML document with a list of projects.

use vstd::prelude::*;
use vstd::string::StringExecFns;
use crate::project::{opt_view, ConfigError, Project, ProjectFields};

verus! {

/// toml's table type, `toml::Table` being its map of strings to values.
#[verifier::external_type_specification]
#[verifier::external_body]
#[verifier::reject_recursive_types(K)]
#[verifier::reject_recursive_types(V)]
pub struct ExTomlMap<K, V>(toml::map::Map<K, V>);

/// A parsed TOML value.
#[verifier::external_type_specification]
#[verifier::external_body]
pub struct ExTomlValue(toml::Value);

/// The error of a TOML text that does not parse.
#[verifier::external_type_specification]
#[verifier::external_body]
pub struct ExTomlError(toml::de::Error);

/// The table that a TOML text parses to, if it parses.
pub uninterp spec fn parsed_table(text: Seq<char>) -> Option<toml::Table>;

/// The value stored under a key of a table.
pub uninterp spec fn table_value(t: toml::Table, key: Seq<char>) -> Option<toml::Value>;

/// The text of a value, if it is a string.
pub uninterp spec fn toml_string(v: toml::Value) -> Option<Seq<char>>;

/// The items of a value, if it is an array.
pub uninterp spec fn toml_array(v: toml::Value) -> Option<Seq<toml::Value>>;

/// The table held by a value, if it is a table.
pub uninterp spec fn toml_table(v: toml::Value) -> Option<toml::Table>;

/// Relies on `toml::Table`'s `FromStr` (`toml::from_str`): parses a document.
#[verifier::external_body]
fn parse_table(text: &str) -> (r: Result<toml::Table, toml::de::Error>)
    ensures
        match r {
            Ok(t) => parsed_table(text@) == Some(t),
            Err(_) => parsed_table(text@) is None,
        },
{
    text.parse::<toml::Table>()
}

/// Relies on `toml::map::Map::get`: the value under `key`.
#[verifier::external_body]
fn table_get<'a>(t: &'a toml::Table, key: &str) -> (r: Option<&'a toml::Value>)
    ensures
        match r {
            Some(v) => table_value(*t, key@) == Some(*v),
            None => table_value(*t, key@) is None,
        },
{
    t.get(key)
}

/// Relies on `toml::Value::as_str`: the text of a string value.
#[verifier::external_body]
fn value_str(v: &toml::Value) -> (r: Option<String>)
    ensures
        opt_view(r) == toml_string(*v),
{
    v.as_str().map(|s| s.to_string())
}

/// Relies on `toml::Value::as_array`: the items of an array value.
#[verifier::external_body]
fn value_array(v: &toml::Value) -> (r: Option<&Vec<toml::Value>>)
    ensures
        match r {
            Some(a) => toml_array(*v) == Some(a@),
            None => toml_array(*v) is None,
        },
{
    v.as_array()
}

/// Relies on `toml::Value::as_table`: the table of a table value.
#[verifier::external_body]
fn value_table(v: &toml::Value) -> (r: Option<&toml::Table>)
    ensures
        match r {
            Some(t) => toml_table(*v) == Some(*t),
            None => toml_table(*v) is None,
        },
{
    v.as_table()
}

/// A string field of a table: absent (`Some(None)`), a string, or of another kind (`None`).
pub open spec fn string_field(t: toml::Table, key: Seq<char>) -> Option<Option<Seq<char>>> {
    match table_value(t, key) {
        None => Some(None),
        Some(v) => match toml_string(v) {
            Some(s) => Some(Some(s)),
            None => None,
        },
    }
}

/// Every item of `items` is a string.
pub open spec fn all_strings(items: Seq<toml::Value>) -> bool {
    forall|i: int| 0 <= i < items.len() ==> (#[trigger] toml_string(items[i])) is Some
}

/// The file list of a project table: absent (`Some(None)`), an array of strings,
/// or of another kind (`None`).
pub open spec fn files_field(t: toml::Table) -> Option<Option<Seq<Seq<char>>>> {
    match table_value(t, "files"@) {
        None => Some(None),
        Some(v) => match toml_array(v) {
            Some(items) => if all_strings(items) {
                Some(Some(items.map_values(|x: toml::Value| toml_string(x)->0)))
            } else {
                None
            },
            None => None,
        },
    }
}

pub open spec fn well_typed(t: toml::Table) -> bool {
    &&& string_field(t, "name"@) is Some
    &&& string_field(t, "output"@) is Some
    &&& string_field(t, "entry_point"@) is Some
    &&& string_field(t, "lua_version"@) is Some
    &&& files_field(t) is Some
}

pub open spec fn list_view(o: Option<Vec<String>>) -> Option<Seq<Seq<char>>> {
    match o {
        Some(v) => Some(v@.map_values(|s: String| s@)),
        None => None,
    }
}

/// The string field `key` of `table`.
fn read_string(table: &toml::Table, key: &str) -> (r: Result<Option<String>, ConfigError>)
    ensures
        match string_field(*table, key@) {
            Some(o) => r is Ok && opt_view(r->Ok_0) == o,
            None => r == Err::<Option<String>, ConfigError>(ConfigError::WrongType),
        },
{
    match table_get(table, key) {
        None => Ok(None),
        Some(v) => match value_str(v) {
            Some(s) => Ok(Some(s)),
            None => Err(ConfigError::WrongType),
        },
    }
}

/// The file list of `table`.
fn read_files(table: &toml::Table) -> (r: Result<Option<Vec<String>>, ConfigError>)
    ensures
        match files_field(*table) {
            Some(o) => r is Ok && list_view(r->Ok_0) == o,
            None => r == Err::<Option<Vec<String>>, ConfigError>(ConfigError::WrongType),
        },
{
    let v = match table_get(table, "files") {
        None => {
            return Ok(None);
        },
        Some(v) => v,
    };
    let items = match value_array(v) {
        None => {
            return Err(ConfigError::WrongType);
        },
        Some(a) => a,
    };
    let mut files: Vec<String> = Vec::new();
    let mut i: usize = 0;
    while i < items.len()
        invariant
            i <= items@.len(),
            table_value(*table, "files"@) == Some(*v),
            toml_array(*v) == Some(items@),
            files@.len() == i,
            forall|j: int| 0 <= j < i ==> toml_string(items@[j]) == Some(#[trigger] files@[j]@),
        decreases items@.len() - i,
    {
        match value_str(&items[i]) {
            Some(s) => {
                files.push(s);
            },
            None => {
                assert(toml_string(items@[i as int]) is None);
                return Err(ConfigError::WrongType);
            },
        }
        i = i + 1;
    }
    assert forall|j: int| 0 <= j < items@.len() implies (#[trigger] toml_string(items@[j])) is Some by {
        assert(toml_string(items@[j]) == Some(files@[j]@));
    }
    assert(files@.map_values(|s: String| s@) =~= items@.map_values(|x: toml::Value| toml_string(x)->0));
    Ok(Some(files))
}

/// `r` is what reading the project table `t` gives.
pub open spec fn fields_of(t: toml::Table, r: Result<ProjectFields, ConfigError>) -> bool {
    if well_typed(t) {
        r is Ok && {
            let f = r->Ok_0;
            &&& Some(opt_view(f.name)) == string_field(t, "name"@)
            &&& Some(opt_view(f.output)) == string_field(t, "output"@)
            &&& Some(opt_view(f.entry_point)) == string_field(t, "entry_point"@)
            &&& Some(opt_view(f.lua_version)) == string_field(t, "lua_version"@)
            &&& Some(list_view(f.files)) == files_field(t)
        }
    } else {
        r == Err::<ProjectFields, ConfigError>(ConfigError::WrongType)
    }
}

/// The fields of one project table; a field of the wrong kind is an error.
pub fn parse_project(table: &toml::Table) -> (r: Result<ProjectFields, ConfigError>)
    ensures
        fields_of(*table, r),
{
    let name = match read_string(table, "name") {
        Ok(x) => x,
        Err(e) => {
            return Err(e);
        },
    };
    let output = match read_string(table, "output") {
        Ok(x) => x,
        Err(e) => {
            return Err(e);
        },
    };
    let entry_point = match read_string(table, "entry_point") {
        Ok(x) => x,
        Err(e) => {
            return Err(e);
        },
    };
    let lua_version = match read_string(table, "lua_version") {
        Ok(x) => x,
        Err(e) => {
            return Err(e);
        },
    };
    let files = match read_files(table) {
        Ok(x) => x,
        Err(e) => {
            return Err(e);
        },
    };
    Ok(ProjectFields { name, output, entry_point, lua_version, files })
}

/// Why no project at all can be built.
#[derive(Clone, Copy, Debug, PartialEq, Eq, Structural)]
pub enum ManifestError {
    /// There is no manifest file.
    MissingFile,
    /// The manifest is not a valid TOML document.
    Syntax,
    /// The manifest has no list of projects.
    MissingProjects,
}

/// `r` is what reading the item `item` of the project list gives.
pub open spec fn project_item(item: toml::Value, r: Result<ProjectFields, ConfigError>) -> bool {
    match toml_table(item) {
        Some(t) => fields_of(t, r),
        None => r == Err::<ProjectFields, ConfigError>(ConfigError::WrongType),
    }
}

/// The project list of a parsed manifest, if it has one.
pub open spec fn project_list(t: toml::Table) -> Option<Seq<toml::Value>> {
    match table_value(t, "project"@) {
        Some(v) => toml_array(v),
        None => None,
    }
}

/// Reads the manifest text (`None` when there is no manifest file) into the
/// fields of each of its projects. A project that cannot be read is an error of
/// its own and does not stop the others.
pub fn read_manifest(text: Option<&str>) -> (r: Result<Vec<Result<ProjectFields, ConfigError>>, ManifestError>)
    ensures
        text is None ==> r == Err::<Vec<Result<ProjectFields, ConfigError>>, ManifestError>(ManifestError::MissingFile),
        text matches Some(s) ==> match parsed_table(s@) {
            None => r == Err::<Vec<Result<ProjectFields, ConfigError>>, ManifestError>(ManifestError::Syntax),
            Some(t) => match project_list(t) {
                None => r == Err::<Vec<Result<ProjectFields, ConfigError>>, ManifestError>(
                    ManifestError::MissingProjects,
                ),
                Some(items) => r is Ok && r->Ok_0@.len() == items.len() && forall|i: int|
                    0 <= i < items.len() ==> project_item(items[i], #[trigger] r->Ok_0@[i]),
            },
        },
{
    let text = match text {
        None => {
            return Err(ManifestError::MissingFile);
        },
        Some(s) => s,
    };
    let table = match parse_table(text) {
        Ok(t) => t,
        Err(_) => {
            return Err(ManifestError::Syntax);
        },
    };
    let list = match table_get(&table, "project") {
        None => {
            return Err(ManifestError::MissingProjects);
        },
        Some(v) => v,
    };
    let items = match value_array(list) {
        None => {
            return Err(ManifestError::MissingProjects);
        },
        Some(a) => a,
    };
    let mut out: Vec<Result<ProjectFields, ConfigError>> = Vec::new();
    let mut i: usize = 0;
    while i < items.len()
        invariant
            i <= items@.len(),
            project_list(table) == Some(items@),
            out@.len() == i,
            forall|j: int| 0 <= j < i ==> project_item(items@[j], #[trigger] out@[j]),
        decreases items@.len() - i,
    {
        let item = match value_table(&items[i]) {
            None => Err(ConfigError::WrongType),
            Some(t) => parse_project(t),
        };
        out.push(item);
        i = i + 1;
    }
    Ok(out)
}

/// The projects that can be built, in order.
pub open spec fn oks(s: Seq<Result<Project, ConfigError>>) -> Seq<Project>
    decreases s.len(),
{
    if s.len() == 0 {
        Seq::empty()
    } else {
        let head = match s[0] {
            Ok(p) => seq![p],
            Err(_) => Seq::empty(),
        };
        head + oks(s.drop_first())
    }
}

/// The errors of the projects that are skipped, in order.
pub open spec fn errs(s: Seq<Result<Project, ConfigError>>) -> Seq<ConfigError>
    decreases s.len(),
{
    if s.len() == 0 {
        Seq::empty()
    } else {
        let head = match s[0] {
            Ok(_) => Seq::empty(),
            Err(e) => seq![e],
        };
        head + errs(s.drop_first())
    }
}

/// Every project of the list is either kept for building or reported as skipped.
pub proof fn lemma_every_project_accounted(results: Seq<Result<Project, ConfigError>>)
    ensures
        oks(results).len() + errs(results).len() == results.len(),
    decreases results.len(),
{
    if results.len() > 0 {
        lemma_every_project_accounted(results.drop_first());
    }
}

/// The dependency accessor's name when the manifest does not set one.
pub const DEFAULT_REQUIRE_FUNCTION: &'static str = "require";

/// The projects to build, with the accessor name that every bundle uses.
pub struct BuildFile {
    pub projects: Vec<Project>,
    pub require_function: String,
}

impl BuildFile {
    /// Keeps each project that could be resolved and sets the others' errors
    /// aside: one bad project never stops the rest.
    pub fn from_projects(results: Vec<Result<Project, ConfigError>>) -> (r: (BuildFile, Vec<ConfigError>))
        ensures
            r.0.projects@ == oks(results@),
            r.1@ == errs(results@),
            r.0.require_function@ == DEFAULT_REQUIRE_FUNCTION@,
    {
        let ghost all = results@;
        let mut rest = results;
        let mut projects: Vec<Project> = Vec::new();
        let mut errors: Vec<ConfigError> = Vec::new();
        while rest.len() > 0
            invariant
                projects@ + oks(rest@) == oks(all),
                errors@ + errs(rest@) == errs(all),
            decreases rest@.len(),
        {
            let ghost before = rest@;
            let item = rest.remove(0);
            assert(rest@ == before.drop_first());
            match item {
                Ok(p) => {
                    projects.push(p);
                    assert(projects@ + oks(rest@) =~= oks(all));
                    assert(errors@ + errs(rest@) =~= errs(all));
                },
                Err(e) => {
                    errors.push(e);
                    assert(projects@ + oks(rest@) =~= oks(all));
                    assert(errors@ + errs(rest@) =~= errs(all));
                },
            }
        }
        assert(projects@ =~= oks(all));
        assert(errors@ =~= errs(all));
        (BuildFile { projects, require_function: String::from_str(DEFAULT_REQUIRE_FUNCTION) }, errors)
    }
}

} // verus!
