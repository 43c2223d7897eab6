use diskscout::category::Category;
use diskscout::classify::{classify_dir, rule_at, DirRule, Surroundings};
use diskscout::path::{FsPath, Part};

/// The files that lie beside a directory.
fn beside(files: &[&str]) -> Surroundings {
    Surroundings {
        present: files.iter().map(|f| f.to_string()).collect(),
        listing: files.iter().map(|f| Part::name(f)).collect(),
    }
}

fn classify(path: &str, files: &[&str]) -> Option<Category> {
    classify_dir(&FsPath::new(path), &beside(files))
}

#[test]
fn target_counts_only_beside_a_cargo_manifest() {
    assert_eq!(
        classify("/td/mycrate/target", &["Cargo.toml", "target"]),
        Some(Category::RustTarget)
    );
    assert_eq!(classify("/td/somewhere/target", &["target"]), None);
    assert_eq!(
        classify("/td/mycrate/target", &["Cargo.lock"]),
        Some(Category::RustTarget)
    );
}

#[test]
fn node_modules_and_pycache_need_no_marker_file() {
    assert_eq!(
        classify("/td/app/node_modules", &[]),
        Some(Category::NodeModules)
    );
    assert_eq!(
        classify("/td/app/__pycache__", &[]),
        Some(Category::PythonBytecode)
    );
}

#[test]
fn venv_counts_only_beside_a_python_project_marker() {
    assert_eq!(
        classify("/td/proj/.venv", &["pyproject.toml"]),
        Some(Category::PythonEnv)
    );
    assert_eq!(classify("/td/notaproject/.venv", &[".venv"]), None);
}

#[test]
fn pods_counts_only_beside_a_podfile() {
    assert_eq!(
        classify("/td/App/Pods", &["Podfile"]),
        Some(Category::CocoaPods)
    );
    assert_eq!(classify("/td/x/Pods", &[]), None);
}

#[test]
fn bin_and_obj_count_only_beside_a_project_file() {
    let files = ["App.csproj", "bin", "obj"];
    assert_eq!(classify("/td/App/bin", &files), Some(Category::DotNetBuild));
    assert_eq!(classify("/td/App/obj", &files), Some(Category::DotNetBuild));

    // A stray bin/ is just a directory named bin.
    assert_eq!(classify("/td/tools/bin", &["bin"]), None);
    // The case of the extension does not matter.
    assert_eq!(
        classify("/td/App/bin", &["App.CSPROJ"]),
        Some(Category::DotNetBuild)
    );
}

#[test]
fn gradle_build_counts_only_beside_a_gradle_script() {
    assert_eq!(
        classify("/td/app/build", &["build.gradle.kts"]),
        Some(Category::GradleBuild)
    );
    assert_eq!(classify("/td/cmake/build", &["CMakeLists.txt"]), None);
}

#[test]
fn gradle_daemon_and_ndk_dirs_count_beside_a_settings_script() {
    assert_eq!(
        classify("/td/app/.gradle", &["settings.gradle"]),
        Some(Category::GradleBuild)
    );
    assert_eq!(
        classify("/td/app/.cxx", &["settings.gradle"]),
        Some(Category::GradleBuild)
    );

    // ~/.gradle is the user-wide cache, a different category entirely.
    assert_eq!(classify("/td/home/.gradle", &[]), None);
}

#[test]
fn swiftpm_build_counts_only_beside_a_package_manifest() {
    assert_eq!(
        classify("/td/Lib/.build", &["Package.swift"]),
        Some(Category::SwiftPmBuild)
    );
    assert_eq!(classify("/td/other/.build", &[]), None);
}

#[test]
fn a_project_local_derived_data_is_found_by_the_walk() {
    assert_eq!(
        classify("/td/App/DerivedData", &[]),
        Some(Category::XcodeDerivedData)
    );
}

#[test]
fn vs_cache_needs_no_marker_file() {
    assert_eq!(
        classify("/td/Sln/.vs", &[]),
        Some(Category::VisualStudioCache)
    );
}

// Removing any of it breaks the bundle's code signature, and an IDE ships
// both its plugins' dependencies and its embedded Python's bytecode.
#[test]
fn nothing_inside_an_app_bundle_is_reclaimable() {
    assert_eq!(
        classify(
            "/td/Applications/CLion.app/Contents/plugins/vuejs/node_modules",
            &["package.json"]
        ),
        None
    );
    assert_eq!(
        classify(
            "/td/Applications/CLion.app/Contents/python/lib/__pycache__",
            &[]
        ),
        None
    );
}

#[test]
fn an_electron_apps_bundled_deps_are_not_reclaimable() {
    assert_eq!(
        classify(
            "/td/SomeApp/app-1.2.3/resources/app.asar.unpacked/node_modules",
            &[]
        ),
        None
    );
    assert_eq!(
        classify("/td2/OtherApp/resources/app/node_modules", &[]),
        None
    );
    assert_eq!(classify("/td2/OtherApp/resources/node_modules", &[]), None);

    // A real project is still caught.
    assert_eq!(
        classify("/td3/myproject/node_modules", &[]),
        Some(Category::NodeModules)
    );
}

#[test]
fn packages_count_beside_a_solution_only() {
    assert_eq!(
        classify("/td/App/packages", &["App.sln"]),
        Some(Category::NugetCache)
    );
    assert_eq!(classify("/td/App/packages", &["App.csproj"]), None);
}

#[test]
fn the_rule_names_what_has_to_be_looked_for() {
    match rule_at(&FsPath::new("/td/App/Pods")) {
        DirRule::Beside(category, files) => {
            assert_eq!(category, Category::CocoaPods);
            assert_eq!(files, vec!["Podfile"]);
        }
        _ => panic!("Pods asks for a file"),
    }
    assert!(matches!(
        rule_at(&FsPath::new("/td/App/src")),
        DirRule::Never
    ));
    assert!(matches!(
        rule_at(&FsPath::new("/td/App/.next")),
        DirRule::Always(Category::NextJs)
    ));
}

// A name that is not Unicode is never one of those that count.
#[test]
fn a_name_that_is_not_unicode_does_not_count() {
    let path = FsPath::new("/td/app").child(&Part::Raw(vec![0xff], "\u{fffd}".to_owned()));
    assert_eq!(classify_dir(&path, &beside(&[])), None);
}
