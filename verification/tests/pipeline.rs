use firework_lang::literals::parse_bool;
use firework_lang::literals::parse_i128;
use firework_lang::literals::str_eq;
use firework_lang::literals::strip_quotes;
use firework_lang::project::artifact_path;
use firework_lang::project::binary_name;
use firework_lang::project::build_dir;
use firework_lang::project::config_toml_text;
use firework_lang::project::entry_file_path;
use firework_lang::project::module_text;
use firework_lang::project::FireworkProject;
use firework_lang::suggest::suggest_subcommand;

#[test]
fn scaffold_foo_project() {
    let plan = FireworkProject::new().new_project("foo");

    let dirs: Vec<&str> = plan.dirs.iter().map(|d| d.as_str()).collect();
    assert_eq!(dirs, vec!["foo", "foo/src"]);

    assert_eq!(plan.files.len(), 3);
    assert_eq!(plan.files[0].path, "foo/config.toml");
    assert_eq!(
        plan.files[0].contents,
        "[project]\nname = \"foo\"\nversion = \"0.1.0\"\n\n[dependencies]\n"
    );
    assert!(plan.files[0].contents.contains("name = \"foo\""));
    assert!(plan.files[0].contents.contains("version = \"0.1.0\""));

    assert_eq!(plan.files[1].path, "foo/.gitignore");
    assert_eq!(plan.files[1].contents, "/build");

    assert_eq!(plan.files[2].path, "foo/src/main.firework");
    assert_eq!(
        plan.files[2].contents,
        "let main: IO() = putStrLn \"Hello, World!\""
    );
}

#[test]
fn pipeline_paths_are_fixed() {
    assert_eq!(entry_file_path(), "src/main.firework");
    assert_eq!(build_dir(), "build");
    assert_eq!(artifact_path(), "build/Main.hs");
    assert_eq!(binary_name(true), "Main.exe");
    assert_eq!(binary_name(false), "./Main");
}

#[test]
fn module_text_prepends_fixed_header() {
    let t = module_text("main = putStrLn \"Hello, World!\"");
    assert_eq!(t, "module Main where\n\nmain = putStrLn \"Hello, World!\"");
}

#[test]
fn config_text_uses_given_name() {
    let t = config_toml_text("demo");
    assert_eq!(t, "[project]\nname = \"demo\"\nversion = \"0.1.0\"\n\n[dependencies]\n");
}

#[test]
fn suggest_reports_closest_subcommand() {
    assert_eq!(suggest_subcommand("bild"), Some("build"));
    assert_eq!(suggest_subcommand("instal"), Some("install"));
    assert_eq!(suggest_subcommand("dump_it"), Some("dump_ir"));
    assert_eq!(suggest_subcommand("new"), Some("new"));
}

#[test]
fn suggest_skips_numeric_text() {
    assert_eq!(suggest_subcommand("123"), None);
    assert_eq!(suggest_subcommand(""), None);
    assert!(suggest_subcommand("12x").is_some());
}

#[test]
fn integer_text_reads_as_i128() {
    assert_eq!(parse_i128("123"), Some(123));
    assert_eq!(parse_i128("-0"), Some(0));
    assert_eq!(parse_i128("abc"), None);
    assert_eq!(parse_i128("99999999999999999999999999999999999999999"), None);
}

#[test]
fn boolean_text_reads_keywords_only() {
    assert_eq!(parse_bool("true"), Some(true));
    assert_eq!(parse_bool("false"), Some(false));
    assert_eq!(parse_bool("True"), None);
    assert_eq!(parse_bool(""), None);
}

#[test]
fn quotes_are_stripped_everywhere() {
    assert_eq!(strip_quotes("\"hi\""), "hi");
    assert_eq!(strip_quotes("a\"b\"c"), "abc");
    assert_eq!(strip_quotes(""), "");
}

#[test]
fn string_equality_by_characters() {
    assert!(str_eq("abc", "abc"));
    assert!(!str_eq("abc", "abd"));
    assert!(!str_eq("abc", "ab"));
}
