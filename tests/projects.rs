use luabundle::manifest::{read_manifest, BuildFile, ManifestError, DEFAULT_REQUIRE_FUNCTION};
use luabundle::project::{files_from_path, resolve_project, ConfigError, LuaVersion, PathEntry, ProjectFields};

fn fields(entry: Option<&str>, files: Option<&[&str]>) -> ProjectFields {
    ProjectFields {
        name: None,
        output: None,
        entry_point: entry.map(|e| e.to_string()),
        lua_version: None,
        files: files.map(|fs| fs.iter().map(|f| f.to_string()).collect()),
    }
}

#[test]
fn directory_expands_recursively() {
    let tree = PathEntry::Dir(vec![
        PathEntry::File("d/a".to_string()),
        PathEntry::File("d/b".to_string()),
        PathEntry::Dir(vec![PathEntry::File("d/s/c".to_string())]),
    ]);
    assert_eq!(files_from_path(&tree), vec!["d/a", "d/b", "d/s/c"]);
}

#[test]
fn single_file_and_nothing() {
    assert_eq!(files_from_path(&PathEntry::File("x.lua".to_string())), vec!["x.lua"]);
    assert!(files_from_path(&PathEntry::Missing).is_empty());
    assert!(files_from_path(&PathEntry::Dir(Vec::new())).is_empty());
}

#[test]
fn dialect_names() {
    assert_eq!(LuaVersion::from_name("Lua51"), LuaVersion::Lua51);
    assert_eq!(LuaVersion::from_name("Luau"), LuaVersion::Luau);
    assert_eq!(LuaVersion::from_name("Fennel"), LuaVersion::Fennel);
    assert_eq!(LuaVersion::from_name("lua54"), LuaVersion::Default);
}

#[test]
fn dialect_from_str() {
    assert_eq!(LuaVersion::from("Luau"), LuaVersion::Luau);
    assert_eq!(LuaVersion::from(""), LuaVersion::Default);
}

#[test]
fn special_files_are_not_bundled_but_not_errors() {
    let found = vec![PathEntry::Other, PathEntry::Dir(vec![PathEntry::Other, PathEntry::File("d/a.lua".to_string())])];
    let p = resolve_project(fields(Some("d/a.lua"), Some(&["fifo", "d"])), true, &found).ok().unwrap();
    assert_eq!(p.files, vec!["d/a.lua"]);
}

#[test]
fn resolve_applies_defaults() {
    let found = vec![PathEntry::File("main.lua".to_string())];
    let p = resolve_project(fields(Some("main.lua"), Some(&["main.lua"])), true, &found).ok().unwrap();
    assert_eq!(p.name, "a.lua");
    assert_eq!(p.output, "build");
    assert_eq!(p.entry_point, "main.lua");
    assert_eq!(p.files, vec!["main.lua"]);
    assert_eq!(p.lua_version, LuaVersion::Default);
}

#[test]
fn resolve_uses_given_fields() {
    let mut f = fields(Some("src/main.lua"), Some(&["src"]));
    f.name = Some("game".to_string());
    f.output = Some("out".to_string());
    f.lua_version = Some("Fennel".to_string());
    let found = vec![PathEntry::Dir(vec![
        PathEntry::File("src/main.lua".to_string()),
        PathEntry::File("src/util.fnl".to_string()),
    ])];
    let p = resolve_project(f, true, &found).ok().unwrap();
    assert_eq!(p.name, "game.lua");
    assert_eq!(p.output, "out");
    assert_eq!(p.files, vec!["src/main.lua", "src/util.fnl"]);
    assert_eq!(p.lua_version, LuaVersion::Fennel);
}

#[test]
fn resolve_errors() {
    let found = vec![PathEntry::File("a.lua".to_string())];
    assert_eq!(resolve_project(fields(None, Some(&["a.lua"])), true, &found).err(), Some(ConfigError::MissingEntryPoint));
    assert_eq!(resolve_project(fields(Some("a.lua"), Some(&["a.lua"])), false, &found).err(), Some(ConfigError::InvalidEntryPoint));
    assert_eq!(resolve_project(fields(Some("a.lua"), None), true, &Vec::new()).err(), Some(ConfigError::MissingFiles));
    let missing = vec![PathEntry::File("a.lua".to_string()), PathEntry::Missing];
    assert_eq!(
        resolve_project(fields(Some("a.lua"), Some(&["a.lua", "gone.lua"])), true, &missing).err(),
        Some(ConfigError::InvalidFile)
    );
}

#[test]
fn invalid_project_is_skipped_not_fatal() {
    let bad = resolve_project(fields(Some("nope.lua"), Some(&["a.lua"])), false, &vec![PathEntry::File("a.lua".to_string())]);
    let good = resolve_project(fields(Some("a.lua"), Some(&["a.lua"])), true, &vec![PathEntry::File("a.lua".to_string())]);
    let (build, errors) = BuildFile::from_projects(vec![bad, good]);
    assert_eq!(build.projects.len(), 1);
    assert_eq!(build.projects[0].entry_point, "a.lua");
    assert_eq!(errors, vec![ConfigError::InvalidEntryPoint]);
    assert_eq!(build.require_function, DEFAULT_REQUIRE_FUNCTION);
}

#[test]
fn missing_manifest_is_fatal() {
    assert_eq!(read_manifest(None).err(), Some(ManifestError::MissingFile));
}

#[test]
fn manifest_errors() {
    assert_eq!(read_manifest(Some("x = [")).err(), Some(ManifestError::Syntax));
    assert_eq!(read_manifest(Some("name = 1")).err(), Some(ManifestError::MissingProjects));
    assert_eq!(read_manifest(Some("project = 1")).err(), Some(ManifestError::MissingProjects));
}

#[test]
fn manifest_projects_are_read() {
    let text = "[[project]]\nname = \"app\"\nentry_point = \"main.lua\"\nfiles = [\"main.lua\", \"lib\"]\n\n[[project]]\nname = 3\nentry_point = \"x.lua\"\nfiles = []\n";
    let items = read_manifest(Some(text)).ok().unwrap();
    assert_eq!(items.len(), 2);
    let first = items[0].as_ref().ok().unwrap();
    assert_eq!(first.name.as_deref(), Some("app"));
    assert_eq!(first.output, None);
    assert_eq!(first.entry_point.as_deref(), Some("main.lua"));
    assert_eq!(first.files, Some(vec!["main.lua".to_string(), "lib".to_string()]));
    assert_eq!(items[1].as_ref().err(), Some(&ConfigError::WrongType));
}

#[test]
fn manifest_file_list_of_wrong_kind() {
    let items = read_manifest(Some("[[project]]\nentry_point = \"a.lua\"\nfiles = [1]\n")).ok().unwrap();
    assert_eq!(items[0].as_ref().err(), Some(&ConfigError::WrongType));
    let items = read_manifest(Some("[[project]]\nentry_point = \"a.lua\"\nfiles = \"a.lua\"\n")).ok().unwrap();
    assert_eq!(items[0].as_ref().err(), Some(&ConfigError::WrongType));
}
