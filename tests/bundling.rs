use luabundle::bundle::{needs_compile, source_step, SourceStep};
use luabundle::key::path_without_extension;
use luabundle::lines::indent_block;
use luabundle::project::{LuaVersion, Project};
use luabundle::wrap::{inject_require, insert_entry_point, insert_module};

const ACCESSOR_LINE: &str = "local require, functions, get_require = get_require(functions), nil, nil";

fn project(files: &[&str], entry: &str) -> Project {
    Project {
        name: "app.lua".to_string(),
        output: "build".to_string(),
        entry_point: entry.to_string(),
        files: files.iter().map(|f| f.to_string()).collect(),
        lua_version: LuaVersion::Default,
    }
}

#[test]
fn key_drops_single_extension() {
    assert_eq!(path_without_extension("src/main.lua"), "src/main");
    assert_eq!(path_without_extension("init.fnl"), "init");
}

#[test]
fn key_drops_only_last_extension() {
    assert_eq!(path_without_extension("a/b.tar.gz"), "a/b.tar");
}

#[test]
fn key_without_extension_is_path() {
    assert_eq!(path_without_extension("Makefile"), "Makefile");
    assert_eq!(path_without_extension("dir.d/file"), "dir.d/file");
    assert_eq!(path_without_extension(""), "");
}

#[test]
fn key_of_dotfile_keeps_leading_dot() {
    assert_eq!(path_without_extension(".hidden"), ".hidden");
    assert_eq!(path_without_extension("dir/.env"), "dir/.env");
    assert_eq!(path_without_extension("dir/.env.lua"), "dir/.env");
}

#[test]
fn key_of_parent_directory_is_unchanged() {
    assert_eq!(path_without_extension(".."), "..");
    assert_eq!(path_without_extension("src/.."), "src/..");
    assert_eq!(path_without_extension("..."), "..");
    assert_eq!(path_without_extension("a/..b"), "a/.");
}

#[test]
fn key_is_case_and_separator_sensitive() {
    assert_eq!(path_without_extension("Lib/Util.LUA"), "Lib/Util");
}

#[test]
fn indent_keeps_blank_lines_blank() {
    assert_eq!(indent_block("a\n\nb\n", 2), "\t\ta\n\n\t\tb");
}

#[test]
fn indent_splits_crlf_lines() {
    assert_eq!(indent_block("a\r\nb", 1), "\ta\n\tb");
    assert_eq!(indent_block("a\r\n\r\nb\r\n", 1), "\ta\n\n\tb");
}

#[test]
fn indent_keeps_lone_carriage_return() {
    assert_eq!(indent_block("a\rb", 1), "\ta\rb");
    assert_eq!(indent_block("a\r\r\nb", 1), "\ta\r\n\tb");
}

#[test]
fn module_from_crlf_source() {
    let block = insert_module("m", "x()\r\n\r\ny()\r\n", "require", 1);
    let expected = format!("\n\t[\"m\"] = function(functions)\n\t\t{ACCESSOR_LINE}\n\n\t\tx()\n\n\t\ty()\n\tend,");
    assert_eq!(block, expected);
}

#[test]
fn indent_of_empty_text() {
    assert_eq!(indent_block("", 3), "");
    assert_eq!(indent_block("\n", 3), "");
}

#[test]
fn indent_level_zero_joins_lines() {
    assert_eq!(indent_block("x\ny", 0), "x\ny");
}

#[test]
fn inject_puts_accessor_first() {
    assert_eq!(inject_require("print(1)", "require"), format!("{ACCESSOR_LINE}\n\nprint(1)"));
}

#[test]
fn inject_uses_given_accessor_name() {
    assert_eq!(
        inject_require("", "load"),
        "local load, functions, get_require = get_require(functions), nil, nil\n\n"
    );
}

#[test]
fn module_is_wrapped_and_indented() {
    let block = insert_module("main", "print(1)", "require", 1);
    let expected = format!("\n\t[\"main\"] = function(functions)\n\t\t{ACCESSOR_LINE}\n\n\t\tprint(1)\n\tend,");
    assert_eq!(block, expected);
}

#[test]
fn module_lines_indented_one_level_deeper() {
    let source = "local x = 1\n\tif x then\n\nreturn x\n";
    let level = 2;
    let block = insert_module("lib/util", source, "require", level);
    let lines: Vec<&str> = block.split('\n').collect();
    let entry = format!("{}[\"lib/util\"] = function(functions)", "\t".repeat(level));
    assert_eq!(lines.iter().filter(|l| **l == entry).count(), 1);
    assert_eq!(lines[1], entry);
    let body: Vec<&str> = lines[4..lines.len() - 1].to_vec();
    let expected: Vec<String> = source
        .lines()
        .map(|l| if l.is_empty() { String::new() } else { format!("{}{}", "\t".repeat(level + 1), l) })
        .collect();
    assert_eq!(body, expected);
    assert_eq!(lines[lines.len() - 1], format!("{}end,", "\t".repeat(level)));
}

#[test]
fn entry_point_epilogue() {
    assert_eq!(
        insert_entry_point("src/main"),
        "\nfunctions.new({\n    files = files,\n    modules = {},\n}):require(\"src/main\")"
    );
}

#[test]
fn build_concatenates_preamble_modules_and_epilogue() {
    let p = project(&["src/main.lua", "src/util.lua"], "src/main.lua");
    let sources = vec!["print(1)".to_string(), "return {}".to_string()];
    let out = p.build("-- runtime\n", &sources, "require");
    let expected = format!(
        "-- runtime\n\nlocal files = {{{}{}\n}}\n{}",
        insert_module("src/main", "print(1)", "require", 1),
        insert_module("src/util", "return {}", "require", 1),
        insert_entry_point("src/main"),
    );
    assert_eq!(out, expected);
    assert!(out.contains("\n\t[\"src/util\"] = function(functions)\n"));
}

#[test]
fn build_with_no_files() {
    let p = project(&[], "main.lua");
    let out = p.build("", &Vec::new(), "require");
    assert_eq!(out, format!("\nlocal files = {{\n}}\n{}", insert_entry_point("main")));
}

#[test]
fn build_twice_is_identical() {
    let p = project(&["a.lua", "b/c.lua"], "a.lua");
    let sources = vec!["x()".to_string(), "y()\n\nz()".to_string()];
    let first = p.build("-- rt", &sources, "require");
    let second = p.build("-- rt", &sources, "require");
    assert_eq!(first, second);
}

#[test]
fn build_keeps_duplicate_files() {
    let p = project(&["a.lua", "a.lua"], "a.lua");
    let sources = vec!["one()".to_string(), "two()".to_string()];
    let out = p.build("", &sources, "require");
    assert_eq!(out.matches("[\"a\"] = function(functions)").count(), 2);
}

#[test]
fn alt_syntax_goes_to_compiler() {
    assert!(needs_compile("src/game.fnl"));
    match source_step("src/game.fnl", "(print 1)".to_string()) {
        SourceStep::Compile(text) => assert_eq!(text, "(print 1)"),
        SourceStep::Ready(_) => panic!("alternate syntax must be compiled"),
    }
}

#[test]
fn other_files_pass_unchanged() {
    assert!(!needs_compile("src/game.lua"));
    assert!(!needs_compile("fnl"));
    assert!(!needs_compile("dir/.fnl"));
    assert!(!needs_compile("game.fnl.lua"));
    assert!(!needs_compile("game.fnlx"));
    match source_step("src/game.lua", "(print 1)".to_string()) {
        SourceStep::Ready(text) => assert_eq!(text, "(print 1)"),
        SourceStep::Compile(_) => panic!("native files are bundled as they are"),
    }
}
