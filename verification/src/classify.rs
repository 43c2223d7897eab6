//! Which category a directory belongs to, from its name, the directories
//! around it and the files beside it.

use vstd::prelude::*;

use crate::category::Category;
use crate::path::{
    extension, extension_of, last_dot, part_text, path_file_name, path_parent, unicode, FsPath, Part, PartView, PathView,
};
use crate::text::{ascii_lower, ends_with, eq_ignoring_case, one_of, same_ignoring_case, text_is, views};

verus! {

/// What has to hold for a directory of some name to count.
pub enum DirRule {
    Never,
    Always(Category),
    /// One of these files has to exist beside it.
    Beside(Category, Vec<&'static str>),
    /// An entry with one of these extensions has to sit beside it.
    BesideExtension(Category, Vec<&'static str>),
}

#[verifier::ext_equal]
pub enum DirRuleView {
    Never,
    Always(Category),
    Beside(Category, Seq<Seq<char>>),
    BesideExtension(Category, Seq<Seq<char>>),
}

impl View for DirRule {
    type V = DirRuleView;

    open spec fn view(&self) -> DirRuleView {
        match self {
            DirRule::Never => DirRuleView::Never,
            DirRule::Always(cat) => DirRuleView::Always(*cat),
            DirRule::Beside(cat, files) => DirRuleView::Beside(*cat, views(files@)),
            DirRule::BesideExtension(cat, exts) => DirRuleView::BesideExtension(*cat, views(exts@)),
        }
    }
}

/// What was seen beside a directory.
pub struct Surroundings {
    /// The files asked for that exist in the parent directory.
    pub present: Vec<String>,
    /// The names of the entries of the parent directory.
    pub listing: Vec<Part>,
}

#[verifier::ext_equal]
pub struct SurroundingsView {
    pub present: Seq<Seq<char>>,
    pub listing: Seq<PartView>,
}

impl View for Surroundings {
    type V = SurroundingsView;

    open spec fn view(&self) -> SurroundingsView {
        SurroundingsView { present: views(self.present@), listing: views(self.listing@) }
    }
}

// ---------------------------------------------------------------------------
// Specification
// ---------------------------------------------------------------------------

/// Some component of the path is a macOS bundle.
pub open spec fn inside_app_bundle(path: PathView) -> bool {
    exists|i: int| 0 <= i < path.steps.len() && is_bundle((#[trigger] path.steps[i]).part)
}

pub open spec fn is_bundle(part: PartView) -> bool {
    unicode(part) matches Some(text) && ".app"@.is_suffix_of(text)
}

/// The text of the component `k` places before the last one.
pub open spec fn ancestor_name(path: PathView, k: int) -> Option<Seq<char>> {
    if k < path.steps.len() {
        unicode(path.steps[path.steps.len() - 1 - k].part)
    } else {
        None
    }
}

/// The directory is part of an installed Electron app: it sits in
/// `app.asar.unpacked`, `resources` or `resources/app`.
pub open spec fn is_packaged(path: PathView) -> bool {
    let parent = ancestor_name(path, 1);
    ||| parent == Some("app.asar.unpacked"@)
    ||| parent == Some("resources"@)
    ||| parent == Some("app"@) && ancestor_name(path, 2) == Some("resources"@)
}

/// The rule for a directory of this name in an ordinary place.
pub open spec fn name_rule(name: Seq<char>) -> DirRuleView {
    if name == "target"@ {
        DirRuleView::Beside(Category::RustTarget, seq!["Cargo.toml"@, "Cargo.lock"@])
    } else if name == "node_modules"@ {
        DirRuleView::Always(Category::NodeModules)
    } else if name == "__pycache__"@ {
        DirRuleView::Always(Category::PythonBytecode)
    } else if name == ".venv"@ || name == "venv"@ || name == "env"@ {
        DirRuleView::Beside(
            Category::PythonEnv,
            seq!["pyproject.toml"@, "requirements.txt"@, "setup.py"@, "setup.cfg"@],
        )
    } else if name == ".next"@ {
        DirRuleView::Always(Category::NextJs)
    } else if name == ".nuxt"@ {
        DirRuleView::Always(Category::Nuxt)
    } else if name == ".svelte-kit"@ {
        DirRuleView::Always(Category::SvelteKit)
    } else if name == "Pods"@ {
        DirRuleView::Beside(Category::CocoaPods, seq!["Podfile"@])
    } else if name == "bin"@ || name == "obj"@ {
        DirRuleView::BesideExtension(
            Category::DotNetBuild,
            seq!["csproj"@, "vbproj"@, "fsproj"@, "vcxproj"@, "sln"@],
        )
    } else if name == ".vs"@ {
        DirRuleView::Always(Category::VisualStudioCache)
    } else if name == "build"@ || name == ".gradle"@ || name == ".cxx"@ {
        DirRuleView::Beside(
            Category::GradleBuild,
            seq!["build.gradle"@, "build.gradle.kts"@, "settings.gradle"@, "settings.gradle.kts"@],
        )
    } else if name == ".build"@ {
        DirRuleView::Beside(Category::SwiftPmBuild, seq!["Package.swift"@])
    } else if name == "DerivedData"@ {
        DirRuleView::Always(Category::XcodeDerivedData)
    } else if name == "packages"@ {
        DirRuleView::BesideExtension(Category::NugetCache, seq!["sln"@])
    } else {
        DirRuleView::Never
    }
}

/// The rule for the directory at `path`. Installed software is out of bounds
/// whatever it is called.
pub open spec fn rule_of(path: PathView) -> DirRuleView {
    match path_file_name(path) {
        Some(last) => match unicode(last) {
            Some(name) => {
                if path_parent(path) is None || inside_app_bundle(path) {
                    DirRuleView::Never
                } else if name == "node_modules"@ && is_packaged(path) {
                    DirRuleView::Never
                } else {
                    name_rule(name)
                }
            },
            None => DirRuleView::Never,
        },
        None => DirRuleView::Never,
    }
}

pub open spec fn any_present(files: Seq<Seq<char>>, present: Seq<Seq<char>>) -> bool {
    exists|i: int| 0 <= i < files.len() && present.contains(#[trigger] files[i])
}

/// An entry has one of the extensions, in upper or lower case.
pub open spec fn has_ext(entry: PartView, exts: Seq<Seq<char>>) -> bool {
    extension_of(part_text(entry)) matches Some(ext) && exists|i: int|
        0 <= i < exts.len() && same_ignoring_case(ext, #[trigger] exts[i])
}

pub open spec fn any_ext(listing: Seq<PartView>, exts: Seq<Seq<char>>) -> bool {
    exists|i: int| 0 <= i < listing.len() && has_ext(#[trigger] listing[i], exts)
}

pub open spec fn settled(rule: DirRuleView, around: SurroundingsView) -> Option<Category> {
    match rule {
        DirRuleView::Never => None,
        DirRuleView::Always(cat) => Some(cat),
        DirRuleView::Beside(cat, files) => if any_present(files, around.present) {
            Some(cat)
        } else {
            None
        },
        DirRuleView::BesideExtension(cat, exts) => if any_ext(around.listing, exts) {
            Some(cat)
        } else {
            None
        },
    }
}

/// The category of the directory at `path`, with this around it.
pub open spec fn category_at(path: PathView, around: SurroundingsView) -> Option<Category> {
    settled(rule_of(path), around)
}

// ---------------------------------------------------------------------------
// Code
// ---------------------------------------------------------------------------

/// Everything inside a macOS bundle ships with the app and is covered by its
/// code signature, so removing any of it breaks the signature rather than
/// freeing a rebuildable cache -- an IDE's bundled plugin dependencies and the
/// bytecode caches of the Python it embeds both live in here.
pub fn is_inside_app_bundle(path: &FsPath) -> (r: bool)
    ensures
        r == inside_app_bundle(path@),
{
    for i in 0..path.steps.len()
        invariant
            forall|j: int| 0 <= j < i ==> !is_bundle((#[trigger] path@.steps[j]).part),
    {
        if let Some(text) = path.steps[i].part.to_str() {
            if ends_with(text.as_str(), ".app") {
                assert(is_bundle(path@.steps[i as int].part));
                return true;
            }
        }
    }
    false
}

/// An Electron app ships its dependencies inside its own install directory, so
/// the tree looks exactly like a project's `node_modules` -- but deleting it
/// breaks the installed application rather than freeing a rebuildable cache.
pub fn is_packaged_app(path: &FsPath) -> (r: bool)
    ensures
        r == is_packaged(path@),
{
    let n = path.steps.len();
    if n < 2 {
        return false;
    }
    let parent = &path.steps[n - 2].part;
    assert(path@.steps[n - 2].part == parent@);
    if parent.is("app.asar.unpacked") || parent.is("resources") {
        return true;
    }
    if n < 3 {
        return false;
    }
    assert(path@.steps[n - 3] == path.steps@[n - 3]@);
    parent.is("app") && path.steps[n - 3].part.is("resources")
}

/// Whether one of the entries has any of these extensions.
pub fn has_sibling_ext(listing: &Vec<Part>, exts: &Vec<&'static str>) -> (r: bool)
    ensures
        r == any_ext(views(listing@), views(exts@)),
{
    let ghost entries = views(listing@);
    let ghost wanted = views(exts@);
    for i in 0..listing.len()
        invariant
            entries == views(listing@),
            wanted == views(exts@),
            forall|j: int| 0 <= j < i ==> !has_ext(#[trigger] entries[j], wanted),
    {
        if let Some(ext) = extension(&listing[i]) {
            for k in 0..exts.len()
                invariant
                    i < listing.len(),
                    entries == views(listing@),
                    wanted == views(exts@),
                    extension_of(part_text(entries[i as int])) == Some(ext@),
                    forall|j: int| 0 <= j < k ==> !same_ignoring_case(ext@, #[trigger] wanted[j]),
            {
                if eq_ignoring_case(ext.as_str(), exts[k]) {
                    assert(same_ignoring_case(ext@, wanted[k as int]));
                    assert(has_ext(entries[i as int], wanted));
                    return true;
                }
            }
        }
    }
    false
}

fn rule_for(name: &String) -> (r: DirRule)
    ensures
        r@ == name_rule(name@),
{
    if text_is(name, "target") {
        let files: Vec<&'static str> = vec!["Cargo.toml", "Cargo.lock"];
        assert(views(files@) =~= seq!["Cargo.toml"@, "Cargo.lock"@]);
        DirRule::Beside(Category::RustTarget, files)
    } else if text_is(name, "node_modules") {
        DirRule::Always(Category::NodeModules)
    } else if text_is(name, "__pycache__") {
        DirRule::Always(Category::PythonBytecode)
    } else if text_is(name, ".venv") || text_is(name, "venv") || text_is(name, "env") {
        let files: Vec<&'static str> =
            vec!["pyproject.toml", "requirements.txt", "setup.py", "setup.cfg"];
        assert(views(files@)
            =~= seq!["pyproject.toml"@, "requirements.txt"@, "setup.py"@, "setup.cfg"@]);
        DirRule::Beside(Category::PythonEnv, files)
    } else if text_is(name, ".next") {
        DirRule::Always(Category::NextJs)
    } else if text_is(name, ".nuxt") {
        DirRule::Always(Category::Nuxt)
    } else if text_is(name, ".svelte-kit") {
        DirRule::Always(Category::SvelteKit)
    } else if text_is(name, "Pods") {
        let files: Vec<&'static str> = vec!["Podfile"];
        assert(views(files@) =~= seq!["Podfile"@]);
        DirRule::Beside(Category::CocoaPods, files)
    } else if text_is(name, "bin") || text_is(name, "obj") {
        // "bin" and "obj" are common enough names that they only count next to
        // a project file that explains them.
        let exts: Vec<&'static str> = vec!["csproj", "vbproj", "fsproj", "vcxproj", "sln"];
        assert(views(exts@) =~= seq!["csproj"@, "vbproj"@, "fsproj"@, "vcxproj"@, "sln"@]);
        DirRule::BesideExtension(Category::DotNetBuild, exts)
    } else if text_is(name, ".vs") {
        DirRule::Always(Category::VisualStudioCache)
    } else if text_is(name, "build") || text_is(name, ".gradle") || text_is(name, ".cxx") {
        // Gradle writes all three next to the build script: the output tree, a
        // project-local daemon cache, and the NDK's native build.
        let files: Vec<&'static str> =
            vec!["build.gradle", "build.gradle.kts", "settings.gradle", "settings.gradle.kts"];
        assert(views(files@)
            =~= seq!["build.gradle"@, "build.gradle.kts"@, "settings.gradle"@, "settings.gradle.kts"@]);
        DirRule::Beside(Category::GradleBuild, files)
    } else if text_is(name, ".build") {
        let files: Vec<&'static str> = vec!["Package.swift"];
        assert(views(files@) =~= seq!["Package.swift"@]);
        DirRule::Beside(Category::SwiftPmBuild, files)
    } else if text_is(name, "DerivedData") {
        // Xcode's default is the shared one under ~/Library, but a project can
        // redirect it next to the sources.
        DirRule::Always(Category::XcodeDerivedData)
    } else if text_is(name, "packages") {
        let exts: Vec<&'static str> = vec!["sln"];
        assert(views(exts@) =~= seq!["sln"@]);
        DirRule::BesideExtension(Category::NugetCache, exts)
    } else {
        DirRule::Never
    }
}

/// What to look for beside the directory at `path` before it can be classified.
pub fn rule_at(path: &FsPath) -> (r: DirRule)
    ensures
        r@ == rule_of(path@),
{
    let name = match path.file_name() {
        Some(last) => match last.to_str() {
            Some(name) => name,
            None => {
                return DirRule::Never;
            },
        },
        None => {
            return DirRule::Never;
        },
    };
    if path.parent().is_none() || is_inside_app_bundle(path) {
        return DirRule::Never;
    }
    if text_is(&name, "node_modules") && is_packaged_app(path) {
        return DirRule::Never;
    }
    rule_for(&name)
}

fn any_file_present(files: &Vec<&'static str>, present: &Vec<String>) -> (r: bool)
    ensures
        r == any_present(views(files@), views(present@)),
{
    let ghost wanted = views(files@);
    let ghost there = views(present@);
    for i in 0..present.len()
        invariant
            wanted == views(files@),
            there == views(present@),
            forall|k: int, j: int|
                0 <= j < i && 0 <= k < wanted.len() ==> #[trigger] there[j] != #[trigger] wanted[k],
    {
        if one_of(&present[i], files.as_slice()) {
            proof {
                let k = choose|k: int|
                    0 <= k < files@.len() && present@[i as int]@ == (#[trigger] files@[k])@;
                assert(wanted[k] == there[i as int]);
                assert(there.contains(wanted[k]));
            }
            return true;
        }
        assert forall|k: int| 0 <= k < wanted.len() implies there[i as int] != #[trigger] wanted[k] by {
            assert(wanted[k] == files@[k]@);
        }
    }
    false
}

/// The category of the directory at `path`, if it has one.
pub fn classify_dir(path: &FsPath, around: &Surroundings) -> (r: Option<Category>)
    ensures
        r == category_at(path@, around@),
{
    match rule_at(path) {
        DirRule::Never => None,
        DirRule::Always(cat) => Some(cat),
        DirRule::Beside(cat, files) => {
            if any_file_present(&files, &around.present) {
                Some(cat)
            } else {
                None
            }
        },
        DirRule::BesideExtension(cat, exts) => {
            if has_sibling_ext(&around.listing, &exts) {
                Some(cat)
            } else {
                None
            }
        },
    }
}

// ---------------------------------------------------------------------------
// Laws
// ---------------------------------------------------------------------------

/// Nothing inside an application bundle is reclaimable, whatever its name and
/// whatever sits beside it.
pub proof fn nothing_inside_an_app_bundle_counts(path: PathView, around: SurroundingsView)
    requires
        inside_app_bundle(path),
    ensures
        category_at(path, around) is None,
{
}

/// The dependencies that an Electron app ships are not reclaimable.
pub proof fn packaged_dependencies_do_not_count(path: PathView, around: SurroundingsView)
    requires
        is_packaged(path),
        path_file_name(path) == Some(PartView::Name("node_modules"@)),
    ensures
        category_at(path, around) is None,
{
}

/// A directory with a common name counts only when the file that explains it
/// sits beside it.
pub proof fn a_marker_explains_the_directory(path: PathView, around: SurroundingsView)
    ensures
        category_at(path, around) == Some(Category::RustTarget) ==> (around.present.contains(
            "Cargo.toml"@,
        ) || around.present.contains("Cargo.lock"@)),
        category_at(path, around) == Some(Category::CocoaPods) ==> around.present.contains(
            "Podfile"@,
        ),
        category_at(path, around) == Some(Category::SwiftPmBuild) ==> around.present.contains(
            "Package.swift"@,
        ),
        category_at(path, around) == Some(Category::PythonEnv) ==> any_present(
            seq!["pyproject.toml"@, "requirements.txt"@, "setup.py"@, "setup.cfg"@],
            around.present,
        ),
        category_at(path, around) == Some(Category::GradleBuild) ==> any_present(
            seq!["build.gradle"@, "build.gradle.kts"@, "settings.gradle"@, "settings.gradle.kts"@],
            around.present,
        ),
        category_at(path, around) == Some(Category::DotNetBuild) ==> any_ext(
            around.listing,
            seq!["csproj"@, "vbproj"@, "fsproj"@, "vcxproj"@, "sln"@],
        ),
        category_at(path, around) == Some(Category::NugetCache) ==> any_ext(
            around.listing,
            seq!["sln"@],
        ),
{
}

/// Only what the rule asks for decides: two places that agree on it classify
/// the directory the same.
pub proof fn only_the_rule_is_asked(path: PathView, a: SurroundingsView, b: SurroundingsView)
    requires
        rule_of(path) matches DirRuleView::Beside(_, files) ==> forall|i: int|
            0 <= i < files.len() ==> (a.present.contains(#[trigger] files[i])
                == b.present.contains(files[i])),
        rule_of(path) matches DirRuleView::BesideExtension(_, _) ==> a.listing == b.listing,
    ensures
        category_at(path, a) == category_at(path, b),
{
}

/// No component of the path is a macOS bundle.
pub open spec fn outside_bundles(path: PathView) -> bool {
    forall|i: int|
        0 <= i < path.steps.len() ==> {
            &&& (#[trigger] path.steps[i]).part matches PartView::Name(text) ==> !".app"@.is_suffix_of(
                text,
            )
            &&& path.steps[i].part matches PartView::Root(text) ==> !".app"@.is_suffix_of(text)
        }
}

proof fn lemma_outside_bundles(path: PathView)
    requires
        outside_bundles(path),
    ensures
        !inside_app_bundle(path),
{
    reveal_strlit(".app");
    reveal_strlit(".");
    reveal_strlit("..");
    if inside_app_bundle(path) {
        let i = choose|i: int| 0 <= i < path.steps.len() && is_bundle((#[trigger] path.steps[i]).part);
        assert(path.steps[i].part is Dot || path.steps[i].part is DotDot);
    }
}

proof fn lemma_names_differ()
    ensures
        "target"@.len() == 6,
        "node_modules"@.len() == 12,
        "__pycache__"@.len() == 11,
        ".venv"@.len() == 5,
        "venv"@.len() == 4,
        "env"@.len() == 3,
        ".next"@.len() == 5,
        ".nuxt"@.len() == 5,
        ".svelte-kit"@.len() == 11,
        "Pods"@.len() == 4,
        "bin"@.len() == 3,
        "obj"@.len() == 3,
        ".vs"@.len() == 3,
        "build"@.len() == 5,
        ".gradle"@.len() == 7,
        ".cxx"@.len() == 4,
        ".build"@.len() == 6,
        "DerivedData"@.len() == 11,
        "packages"@.len() == 8,
        "target"@ != ".build"@,
        "__pycache__"@ != ".svelte-kit"@,
        "__pycache__"@ != "DerivedData"@,
        ".venv"@ != ".next"@,
        ".venv"@ != ".nuxt"@,
        ".venv"@ != "build"@,
        "venv"@ != "Pods"@,
        "venv"@ != ".cxx"@,
        "env"@ != "bin"@,
        "env"@ != "obj"@,
        "env"@ != ".vs"@,
        ".next"@ != ".nuxt"@,
        ".next"@ != "build"@,
        ".nuxt"@ != "build"@,
        ".svelte-kit"@ != "DerivedData"@,
        "Pods"@ != ".cxx"@,
        "bin"@ != "obj"@,
        "bin"@ != ".vs"@,
        "obj"@ != ".vs"@,
{
    reveal_strlit("target");
    reveal_strlit("node_modules");
    reveal_strlit("__pycache__");
    reveal_strlit(".venv");
    reveal_strlit("venv");
    reveal_strlit("env");
    reveal_strlit(".next");
    reveal_strlit(".nuxt");
    reveal_strlit(".svelte-kit");
    reveal_strlit("Pods");
    reveal_strlit("bin");
    reveal_strlit("obj");
    reveal_strlit(".vs");
    reveal_strlit("build");
    reveal_strlit(".gradle");
    reveal_strlit(".cxx");
    reveal_strlit(".build");
    reveal_strlit("DerivedData");
    reveal_strlit("packages");
    assert("target"@[0] != ".build"@[0]);
    assert("__pycache__"@[0] != ".svelte-kit"@[0]);
    assert("__pycache__"@[0] != "DerivedData"@[0]);
    assert(".venv"@[1] != ".next"@[1]);
    assert(".venv"@[1] != ".nuxt"@[1]);
    assert(".venv"@[0] != "build"@[0]);
    assert("venv"@[0] != "Pods"@[0]);
    assert("venv"@[0] != ".cxx"@[0]);
    assert("env"@[0] != "bin"@[0]);
    assert("env"@[0] != "obj"@[0]);
    assert("env"@[0] != ".vs"@[0]);
    assert(".next"@[2] != ".nuxt"@[2]);
    assert(".next"@[0] != "build"@[0]);
    assert(".nuxt"@[0] != "build"@[0]);
    assert(".svelte-kit"@[0] != "DerivedData"@[0]);
    assert("Pods"@[0] != ".cxx"@[0]);
    assert("bin"@[0] != "obj"@[0]);
    assert("bin"@[0] != ".vs"@[0]);
    assert("obj"@[0] != ".vs"@[0]);
}

proof fn lemma_rule_at_name(path: PathView, name: Seq<char>)
    requires
        path.steps.len() > 0,
        path.steps.last().part == PartView::Name(name),
        outside_bundles(path),
        name != "node_modules"@,
    ensures
        rule_of(path) == name_rule(name),
{
    lemma_outside_bundles(path);
}

/// A `target` beside a Cargo manifest is a Rust build.
pub proof fn a_target_beside_a_cargo_manifest_counts(
    path: PathView,
    around: SurroundingsView,
    name: Seq<char>,
    marker: Seq<char>,
)
    requires
        path.steps.len() > 0,
        path.steps.last().part == PartView::Name(name),
        name == "target"@,
        marker == "Cargo.toml"@ || marker == "Cargo.lock"@,
        outside_bundles(path),
        around.present.contains(marker),
    ensures
        category_at(path, around) == Some(Category::RustTarget),
{
    lemma_names_differ();
    lemma_rule_at_name(path, name);
    let files = seq!["Cargo.toml"@, "Cargo.lock"@];
    assert(name_rule(name) == DirRuleView::Beside(Category::RustTarget, files));
    let k: int = if marker == "Cargo.toml"@ { 0 } else { 1 };
    assert(files[k] == marker);
    assert(any_present(files, around.present));
}

/// A virtualenv under any of its usual names counts beside a Python project.
pub proof fn a_virtualenv_beside_a_python_project_counts(
    path: PathView,
    around: SurroundingsView,
    name: Seq<char>,
    marker: Seq<char>,
)
    requires
        path.steps.len() > 0,
        path.steps.last().part == PartView::Name(name),
        name == ".venv"@ || name == "venv"@ || name == "env"@,
        marker == "pyproject.toml"@ || marker == "requirements.txt"@ || marker == "setup.py"@ || marker == "setup.cfg"@,
        outside_bundles(path),
        around.present.contains(marker),
    ensures
        category_at(path, around) == Some(Category::PythonEnv),
{
    lemma_names_differ();
    lemma_rule_at_name(path, name);
    let files = seq!["pyproject.toml"@, "requirements.txt"@, "setup.py"@, "setup.cfg"@];
    assert(name_rule(name) == DirRuleView::Beside(Category::PythonEnv, files));
    let k: int = if marker == "pyproject.toml"@ { 0 } else if marker == "requirements.txt"@ { 1 } else if marker == "setup.py"@ { 2 } else { 3 };
    assert(files[k] == marker);
    assert(any_present(files, around.present));
}

/// `Pods` counts beside a Podfile.
pub proof fn pods_beside_a_podfile_count(
    path: PathView,
    around: SurroundingsView,
    name: Seq<char>,
    marker: Seq<char>,
)
    requires
        path.steps.len() > 0,
        path.steps.last().part == PartView::Name(name),
        name == "Pods"@,
        marker == "Podfile"@,
        outside_bundles(path),
        around.present.contains(marker),
    ensures
        category_at(path, around) == Some(Category::CocoaPods),
{
    lemma_names_differ();
    lemma_rule_at_name(path, name);
    let files = seq!["Podfile"@];
    assert(name_rule(name) == DirRuleView::Beside(Category::CocoaPods, files));
    let k: int = 0;
    assert(files[k] == marker);
    assert(any_present(files, around.present));
}

/// What Gradle writes counts beside a script of its own.
pub proof fn a_gradle_directory_beside_a_script_counts(
    path: PathView,
    around: SurroundingsView,
    name: Seq<char>,
    marker: Seq<char>,
)
    requires
        path.steps.len() > 0,
        path.steps.last().part == PartView::Name(name),
        name == "build"@ || name == ".gradle"@ || name == ".cxx"@,
        marker == "build.gradle"@ || marker == "build.gradle.kts"@ || marker == "settings.gradle"@ || marker == "settings.gradle.kts"@,
        outside_bundles(path),
        around.present.contains(marker),
    ensures
        category_at(path, around) == Some(Category::GradleBuild),
{
    lemma_names_differ();
    lemma_rule_at_name(path, name);
    let files = seq!["build.gradle"@, "build.gradle.kts"@, "settings.gradle"@, "settings.gradle.kts"@];
    assert(name_rule(name) == DirRuleView::Beside(Category::GradleBuild, files));
    let k: int = if marker == "build.gradle"@ { 0 } else if marker == "build.gradle.kts"@ { 1 } else if marker == "settings.gradle"@ { 2 } else { 3 };
    assert(files[k] == marker);
    assert(any_present(files, around.present));
}

/// `.build` counts beside a Swift package manifest.
pub proof fn a_swift_build_beside_a_package_counts(
    path: PathView,
    around: SurroundingsView,
    name: Seq<char>,
    marker: Seq<char>,
)
    requires
        path.steps.len() > 0,
        path.steps.last().part == PartView::Name(name),
        name == ".build"@,
        marker == "Package.swift"@,
        outside_bundles(path),
        around.present.contains(marker),
    ensures
        category_at(path, around) == Some(Category::SwiftPmBuild),
{
    lemma_names_differ();
    lemma_rule_at_name(path, name);
    let files = seq!["Package.swift"@];
    assert(name_rule(name) == DirRuleView::Beside(Category::SwiftPmBuild, files));
    let k: int = 0;
    assert(files[k] == marker);
    assert(any_present(files, around.present));
}

/// Directories whose name says it all count wherever they are.
pub proof fn some_names_need_no_marker(path: PathView, around: SurroundingsView, name: Seq<char>)
    requires
        path.steps.len() > 0,
        path.steps.last().part == PartView::Name(name),
        outside_bundles(path),
    ensures
        name == "__pycache__"@ ==> category_at(path, around) == Some(Category::PythonBytecode),
        name == ".next"@ ==> category_at(path, around) == Some(Category::NextJs),
        name == ".nuxt"@ ==> category_at(path, around) == Some(Category::Nuxt),
        name == ".svelte-kit"@ ==> category_at(path, around) == Some(Category::SvelteKit),
        name == ".vs"@ ==> category_at(path, around) == Some(Category::VisualStudioCache),
        name == "DerivedData"@ ==> category_at(path, around) == Some(Category::XcodeDerivedData),
{
    lemma_names_differ();
    if name != "node_modules"@ {
        lemma_rule_at_name(path, name);
    }
}

/// `node_modules` counts everywhere but where an Electron app ships it.
pub proof fn dependencies_count_outside_packaged_apps(path: PathView, around: SurroundingsView)
    requires
        path.steps.len() > 0,
        path.steps.last().part == PartView::Name("node_modules"@),
        outside_bundles(path),
        path.steps.len() >= 2 ==> {
            let parent = path.steps[path.steps.len() - 2].part;
            &&& parent != PartView::Name("resources"@)
            &&& parent != PartView::Root("resources"@)
            &&& parent != PartView::Name("app.asar.unpacked"@)
            &&& parent != PartView::Root("app.asar.unpacked"@)
        },
        path.steps.len() >= 3 && path.steps[path.steps.len() - 2].part == PartView::Name("app"@)
            ==> {
            let grandparent = path.steps[path.steps.len() - 3].part;
            grandparent != PartView::Name("resources"@) && grandparent != PartView::Root(
                "resources"@,
            )
        },
        path.steps.len() >= 2 ==> path.steps[path.steps.len() - 2].part != PartView::Root("app"@),
    ensures
        category_at(path, around) == Some(Category::NodeModules),
{
    lemma_names_differ();
    reveal_strlit("resources");
    reveal_strlit("app");
    reveal_strlit("app.asar.unpacked");
    reveal_strlit(".");
    reveal_strlit("..");
    lemma_outside_bundles(path);
    assert(!is_packaged(path));
}

/// The dependencies in `resources`, `resources/app` and `app.asar.unpacked`
/// belong to an installed app.
pub proof fn what_an_electron_app_ships_does_not_count(path: PathView, around: SurroundingsView)
    requires
        path.steps.len() >= 2,
        path.steps.last().part == PartView::Name("node_modules"@),
        ({
            let n = path.steps.len() as int;
            ||| path.steps[n - 2].part == PartView::Name("resources"@)
            ||| path.steps[n - 2].part == PartView::Name("app.asar.unpacked"@)
            ||| n >= 3 && path.steps[n - 2].part == PartView::Name("app"@) && path.steps[n - 3].part
                == PartView::Name("resources"@)
        }),
    ensures
        category_at(path, around) is None,
{
    assert(is_packaged(path));
}

/// Nothing below a directory whose name ends in `.app` counts, nor does that
/// directory.
pub proof fn nothing_below_a_bundle_counts(path: PathView, around: SurroundingsView, i: int)
    requires
        0 <= i < path.steps.len(),
        path.steps[i].part matches PartView::Name(text) && ".app"@.is_suffix_of(text),
    ensures
        category_at(path, around) is None,
{
    assert(is_bundle(path.steps[i].part));
}

/// The text ends in a dot and `ext`, in upper or lower case, with something
/// ahead of the dot.
pub open spec fn ends_in_extension(text: Seq<char>, ext: Seq<char>) -> bool {
    let at = text.len() - ext.len();
    &&& at >= 2
    &&& text[at - 1] == '.'
    &&& forall|k: int|
        0 <= k < ext.len() ==> {
            ||| #[trigger] text[at + k] == ext[k]
            ||| 'A' <= text[at + k] <= 'Z' && text[at + k] as u32 + 32 == ext[k] as u32
        }
}

/// A lower-case word without a dot.
pub open spec fn is_plain_word(ext: Seq<char>) -> bool {
    ext.len() > 0 && forall|k: int| 0 <= k < ext.len() ==> 'a' <= #[trigger] ext[k] <= 'z'
}

proof fn lemma_dot_at(text: Seq<char>, at: int)
    requires
        0 <= at < text.len(),
        text[at] == '.',
        forall|k: int| at < k < text.len() ==> #[trigger] text[k] != '.',
    ensures
        last_dot(text) == at,
    decreases text.len(),
{
    if at < text.len() - 1 {
        assert(text[text.len() - 1] != '.');
        lemma_dot_at(text.drop_last(), at);
    }
}

proof fn lemma_last_dot(text: Seq<char>)
    ensures
        -1 <= last_dot(text) < text.len(),
        last_dot(text) >= 0 ==> text[last_dot(text)] == '.',
    decreases text.len(),
{
    if text.len() > 0 && text.last() != '.' {
        lemma_last_dot(text.drop_last());
    }
}

proof fn lemma_extension(text: Seq<char>, ext: Seq<char>)
    requires
        is_plain_word(ext),
    ensures
        ends_in_extension(text, ext) <==> (extension_of(text) matches Some(own)
            && same_ignoring_case(own, ext)),
{
    let at = text.len() - ext.len();
    lemma_last_dot(text);
    if ends_in_extension(text, ext) {
        assert forall|k: int| at - 1 < k < text.len() implies #[trigger] text[k] != '.' by {
            assert(text[at + (k - at)] == text[k]);
            assert('a' <= ext[k - at] <= 'z');
        }
        lemma_dot_at(text, at - 1);
        let own = text.skip(at);
        assert forall|k: int| 0 <= k < own.len() implies ascii_lower(#[trigger] own[k])
            == ascii_lower(ext[k]) by {
            assert(own[k] == text[at + k]);
            assert('a' <= ext[k] <= 'z');
        }
    }
    if extension_of(text) matches Some(own) && same_ignoring_case(own, ext) {
        let own = text.skip(last_dot(text) + 1);
        assert(own.len() == ext.len());
        assert forall|k: int| 0 <= k < ext.len() implies {
            ||| #[trigger] text[at + k] == ext[k]
            ||| 'A' <= text[at + k] <= 'Z' && text[at + k] as u32 + 32 == ext[k] as u32
        } by {
            assert(own[k] == text[at + k]);
            assert(ascii_lower(own[k]) == ascii_lower(ext[k]));
            assert('a' <= ext[k] <= 'z');
        }
    }
}

/// `bin` and `obj` count beside a project file of .NET or a solution.
pub proof fn bin_and_obj_beside_a_project_file_count(
    path: PathView,
    around: SurroundingsView,
    name: Seq<char>,
    ext: Seq<char>,
    i: int,
)
    requires
        path.steps.len() > 0,
        path.steps.last().part == PartView::Name(name),
        name == "bin"@ || name == "obj"@,
        ext == "csproj"@ || ext == "vbproj"@ || ext == "fsproj"@ || ext == "vcxproj"@ || ext == "sln"@,
        outside_bundles(path),
        0 <= i < around.listing.len(),
        around.listing[i] matches PartView::Name(text) && ends_in_extension(text, ext),
    ensures
        category_at(path, around) == Some(Category::DotNetBuild),
{
    lemma_names_differ();
    reveal_strlit("csproj");
    reveal_strlit("vbproj");
    reveal_strlit("fsproj");
    reveal_strlit("vcxproj");
    reveal_strlit("sln");
    lemma_rule_at_name(path, name);
    let exts = seq!["csproj"@, "vbproj"@, "fsproj"@, "vcxproj"@, "sln"@];
    assert(name_rule(name) == DirRuleView::BesideExtension(Category::DotNetBuild, exts));
    let k: int = if ext == "csproj"@ { 0 } else if ext == "vbproj"@ { 1 } else if ext == "fsproj"@ { 2 } else if ext == "vcxproj"@ { 3 } else { 4 };
    assert(exts[k] == ext);
    lemma_extension(part_text(around.listing[i]), ext);
    assert(same_ignoring_case(extension_of(part_text(around.listing[i]))->0, exts[k]));
    assert(has_ext(around.listing[i], exts));
}

/// `packages` counts beside a solution.
pub proof fn packages_beside_a_solution_count(
    path: PathView,
    around: SurroundingsView,
    name: Seq<char>,
    ext: Seq<char>,
    i: int,
)
    requires
        path.steps.len() > 0,
        path.steps.last().part == PartView::Name(name),
        name == "packages"@,
        ext == "sln"@,
        outside_bundles(path),
        0 <= i < around.listing.len(),
        around.listing[i] matches PartView::Name(text) && ends_in_extension(text, ext),
    ensures
        category_at(path, around) == Some(Category::NugetCache),
{
    lemma_names_differ();
    reveal_strlit("csproj");
    reveal_strlit("vbproj");
    reveal_strlit("fsproj");
    reveal_strlit("vcxproj");
    reveal_strlit("sln");
    lemma_rule_at_name(path, name);
    let exts = seq!["sln"@];
    assert(name_rule(name) == DirRuleView::BesideExtension(Category::NugetCache, exts));
    let k: int = 0;
    assert(exts[k] == ext);
    lemma_extension(part_text(around.listing[i]), ext);
    assert(same_ignoring_case(extension_of(part_text(around.listing[i]))->0, exts[k]));
    assert(has_ext(around.listing[i], exts));
}

/// A directory of any other name never counts, and no directory counts without
/// what explains it.
pub proof fn nothing_counts_without_its_name_and_marker(path: PathView, around: SurroundingsView)
    ensures
        category_at(path, around) is Some ==> path.steps.len() > 0,
        category_at(path, around) == Some(Category::RustTarget) ==> (path.steps.last().part == PartView::Name("target"@)) && (around.present.contains("Cargo.toml"@) || around.present.contains("Cargo.lock"@)),
        category_at(path, around) == Some(Category::PythonEnv) ==> (path.steps.last().part == PartView::Name(".venv"@) || path.steps.last().part == PartView::Name("venv"@) || path.steps.last().part == PartView::Name("env"@)) && (around.present.contains("pyproject.toml"@) || around.present.contains("requirements.txt"@) || around.present.contains("setup.py"@) || around.present.contains("setup.cfg"@)),
        category_at(path, around) == Some(Category::CocoaPods) ==> (path.steps.last().part == PartView::Name("Pods"@)) && (around.present.contains("Podfile"@)),
        category_at(path, around) == Some(Category::GradleBuild) ==> (path.steps.last().part == PartView::Name("build"@) || path.steps.last().part == PartView::Name(".gradle"@) || path.steps.last().part == PartView::Name(".cxx"@)) && (around.present.contains("build.gradle"@) || around.present.contains("build.gradle.kts"@) || around.present.contains("settings.gradle"@) || around.present.contains("settings.gradle.kts"@)),
        category_at(path, around) == Some(Category::SwiftPmBuild) ==> (path.steps.last().part == PartView::Name(".build"@)) && (around.present.contains("Package.swift"@)),
        category_at(path, around) == Some(Category::PythonBytecode) ==> (path.steps.last().part == PartView::Name("__pycache__"@)),
        category_at(path, around) == Some(Category::NextJs) ==> (path.steps.last().part == PartView::Name(".next"@)),
        category_at(path, around) == Some(Category::Nuxt) ==> (path.steps.last().part == PartView::Name(".nuxt"@)),
        category_at(path, around) == Some(Category::SvelteKit) ==> (path.steps.last().part == PartView::Name(".svelte-kit"@)),
        category_at(path, around) == Some(Category::VisualStudioCache) ==> (path.steps.last().part == PartView::Name(".vs"@)),
        category_at(path, around) == Some(Category::XcodeDerivedData) ==> (path.steps.last().part == PartView::Name("DerivedData"@)),
        category_at(path, around) == Some(Category::NodeModules) ==> (path.steps.last().part == PartView::Name("node_modules"@)),
        category_at(path, around) == Some(Category::DotNetBuild) ==> (path.steps.last().part == PartView::Name("bin"@) || path.steps.last().part == PartView::Name("obj"@)) && exists|i: int|
            0 <= i < around.listing.len() && (ends_in_extension(part_text(#[trigger] around.listing[i]), "csproj"@) || ends_in_extension(part_text(around.listing[i]), "vbproj"@) || ends_in_extension(part_text(around.listing[i]), "fsproj"@) || ends_in_extension(part_text(around.listing[i]), "vcxproj"@) || ends_in_extension(part_text(around.listing[i]), "sln"@)),
        category_at(path, around) == Some(Category::NugetCache) ==> (path.steps.last().part == PartView::Name("packages"@)) && exists|i: int|
            0 <= i < around.listing.len() && (ends_in_extension(part_text(#[trigger] around.listing[i]), "sln"@)),
        category_at(path, around) matches Some(cat) ==> (cat == Category::RustTarget
            || cat == Category::PythonEnv
            || cat == Category::CocoaPods
            || cat == Category::GradleBuild
            || cat == Category::SwiftPmBuild
            || cat == Category::PythonBytecode
            || cat == Category::NextJs
            || cat == Category::Nuxt
            || cat == Category::SvelteKit
            || cat == Category::VisualStudioCache
            || cat == Category::XcodeDerivedData
            || cat == Category::NodeModules
            || cat == Category::DotNetBuild
            || cat == Category::NugetCache),
{
    reveal_strlit("csproj");
    reveal_strlit("vbproj");
    reveal_strlit("fsproj");
    reveal_strlit("vcxproj");
    reveal_strlit("sln");
    if category_at(path, around) == Some(Category::DotNetBuild) {
        let exts = seq!["csproj"@, "vbproj"@, "fsproj"@, "vcxproj"@, "sln"@];
        assert(any_ext(around.listing, exts));
        let i = choose|i: int|
            0 <= i < around.listing.len() && has_ext(#[trigger] around.listing[i], exts);
        let text = part_text(around.listing[i]);
        lemma_extension(text, "csproj"@);
        lemma_extension(text, "vbproj"@);
        lemma_extension(text, "fsproj"@);
        lemma_extension(text, "vcxproj"@);
        lemma_extension(text, "sln"@);
    }
    if category_at(path, around) == Some(Category::NugetCache) {
        let exts = seq!["sln"@];
        assert(any_ext(around.listing, exts));
        let i = choose|i: int|
            0 <= i < around.listing.len() && has_ext(#[trigger] around.listing[i], exts);
        lemma_extension(part_text(around.listing[i]), "sln"@);
    }
}

} // verus!
