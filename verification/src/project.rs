//! The project pipeline's computable parts: the scaffold a new project is
//! made of, and the fixed paths and texts the build pipeline uses. Reading,
//! writing and process invocation live outside the library; they consume the
//! plans and texts produced here.

use vstd::prelude::*;
use vstd::string::StringExecFns;

verus! {

/// One file the scaffold writes: its path and its full contents.
pub struct ScaffoldFile {
    pub path: String,
    pub contents: String,
}

/// Everything scaffolding a new project creates: the directories first, then
/// the files with their contents.
pub struct ScaffoldPlan {
    pub dirs: Vec<String>,
    pub files: Vec<ScaffoldFile>,
}

/// The declarative config file of a fresh project: its name and the default
/// version, and an empty dependency section.
pub open spec fn config_toml_view(name: Seq<char>) -> Seq<char> {
    "[project]\nname = \""@ + name + "\"\nversion = \"0.1.0\"\n\n[dependencies]\n"@
}

/// The version-control ignore file of a fresh project: the build directory.
pub open spec fn gitignore_view() -> Seq<char> {
    "/build"@
}

/// The canonical one-line starter program of a fresh project.
pub open spec fn hello_world_view() -> Seq<char> {
    "let main: IO() = putStrLn \"Hello, World!\""@
}

/// The fixed module header the rendered translation unit starts with.
pub open spec fn module_header_view() -> Seq<char> {
    "module Main where\n\n"@
}

/// The config file text for a project of the given name.
pub fn config_toml_text(name: &str) -> (r: String)
    ensures
        r@ == config_toml_view(name@),
{
    let mut out = String::from_str("[project]\nname = \"");
    out.append(name);
    out.append("\"\nversion = \"0.1.0\"\n\n[dependencies]\n");
    out
}

/// The rendered translation unit: the fixed module header followed by the
/// transpiled declarations.
pub fn module_text(transpiled: &str) -> (r: String)
    ensures
        r@ == module_header_view() + transpiled@,
{
    let mut out = String::from_str("module Main where\n\n");
    out.append(transpiled);
    out
}

/// The fixed relative path a project's source lives at.
pub fn entry_file_path() -> (r: &'static str)
    ensures
        r@ == "src/main.firework"@,
{
    "src/main.firework"
}

/// The build directory, created beside the project root when missing.
pub fn build_dir() -> (r: &'static str)
    ensures
        r@ == "build"@,
{
    "build"
}

/// Where the rendered translation unit is written.
pub fn artifact_path() -> (r: &'static str)
    ensures
        r@ == "build/Main.hs"@,
{
    "build/Main.hs"
}

/// The produced binary's name: the only platform branching in the pipeline.
pub fn binary_name(windows: bool) -> (r: &'static str)
    ensures
        windows ==> r@ == "Main.exe"@,
        !windows ==> r@ == "./Main"@,
{
    if windows {
        "Main.exe"
    } else {
        "./Main"
    }
}

/// A handle on a project rooted in the working directory.
pub struct FireworkProject {}

impl FireworkProject {
    pub fn new() -> (p: Self)
        ensures
            p == (FireworkProject {  }),
    {
        Self {  }
    }

    /// The scaffold for a new project of the given name: a root directory
    /// and a source directory, the config file, the ignore file, and the
    /// starter source file.
    pub fn new_project(&self, project_name: &str) -> (plan: ScaffoldPlan)
        ensures
            plan.dirs@.len() == 2,
            plan.dirs@[0]@ == project_name@,
            plan.dirs@[1]@ == project_name@ + "/src"@,
            plan.files@.len() == 3,
            plan.files@[0].path@ == project_name@ + "/config.toml"@,
            plan.files@[0].contents@ == config_toml_view(project_name@),
            plan.files@[1].path@ == project_name@ + "/.gitignore"@,
            plan.files@[1].contents@ == gitignore_view(),
            plan.files@[2].path@ == project_name@ + "/src/main.firework"@,
            plan.files@[2].contents@ == hello_world_view(),
    {
        let mut dirs: Vec<String> = Vec::new();
        dirs.push(String::from_str(project_name));
        dirs.push(String::from_str(project_name).concat("/src"));

        let mut files: Vec<ScaffoldFile> = Vec::new();
        files.push(
            ScaffoldFile {
                path: String::from_str(project_name).concat("/config.toml"),
                contents: config_toml_text(project_name),
            },
        );
        files.push(
            ScaffoldFile {
                path: String::from_str(project_name).concat("/.gitignore"),
                contents: String::from_str("/build"),
            },
        );
        files.push(
            ScaffoldFile {
                path: String::from_str(project_name).concat("/src/main.firework"),
                contents: String::from_str("let main: IO() = putStrLn \"Hello, World!\""),
            },
        );
        ScaffoldPlan { dirs, files }
    }
}

impl Default for FireworkProject {
    fn default() -> (p: Self)
        ensures
            p == (FireworkProject {  }),
    {
        Self::new()
    }
}

} // verus!
