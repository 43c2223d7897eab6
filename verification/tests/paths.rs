use std::path::Path;

use diskscout::order::{sort, Ranked};
use diskscout::path::{FsPath, Part};

fn text(path: &FsPath) -> String {
    path.display()
}

#[test]
fn a_path_is_read_as_its_components() {
    let odd = FsPath::new("/a//b/./c/");
    assert!(odd.same(&FsPath::new("/a/b/c")));
    assert_eq!(odd.steps.len(), 4);
    assert_eq!(text(&FsPath::new("./a")), "./a");
    assert_eq!(text(&FsPath::new("a/../b")), "a/../b");
    assert_eq!(text(&FsPath::new("/")), "/");
    assert_eq!(text(&FsPath::new("")), "");
    assert!(FsPath::new("/a").is_absolute());
    assert!(!FsPath::new("a").is_absolute());
}

#[test]
fn an_absolute_path_replaces_what_it_is_joined_to() {
    let home = FsPath::new("/home/me");
    assert_eq!(text(&home.join("x/y")), "/home/me/x/y");
    assert_eq!(text(&home.join("/etc")), "/etc");
    assert!(home.join("").same(&home));
}

/// Paths written in ways that the standard library keeps.
const WRITTEN: [&str; 14] = [
    "", "/", "//", "a", "./a", "a/", "a//b", "/a//b/./c/", "a/./b", "/./a", "..", "a/../b/.", ".",
    "/a/b",
];

#[test]
fn a_path_is_shown_as_the_standard_library_shows_it() {
    for a in WRITTEN {
        let path = FsPath::new(a);
        assert_eq!(text(&path), a);
        assert_eq!(
            path.parent().map(|p| text(&p)),
            Path::new(a).parent().map(|p| p.display().to_string()),
            "{a}"
        );
        for b in WRITTEN {
            assert_eq!(
                text(&path.join(b)),
                Path::new(a).join(b).display().to_string(),
                "{a} {b}"
            );
            assert_eq!(
                path.strip_prefix(&FsPath::new(b)).map(|p| text(&p)),
                Path::new(a)
                    .strip_prefix(b)
                    .ok()
                    .map(|p| p.display().to_string()),
                "{a} {b}"
            );
            assert_eq!(
                path.same(&FsPath::new(b)),
                Path::new(a) == Path::new(b),
                "{a} {b}"
            );
        }
    }
}

#[test]
fn descending_writes_the_separator_of_the_platform() {
    let drive = FsPath::root("C:\\", '\\');
    assert_eq!(text(&drive.descend("Users/me")), "C:\\Users\\me");
    assert_eq!(text(&drive.join("Users/me")), "C:\\Users/me");
    assert!(drive.descend("Users/me").same(&drive.join("Users/me")));
    assert_eq!(text(&FsPath::root("C:", '\\').join("x")), "C:x");
    assert_eq!(text(&FsPath::new("/a").descend("b//c")), "/a/b/c");
}

#[test]
fn parents_names_and_extensions() {
    let path = FsPath::new("/a/b.tar.gz");
    assert_eq!(text(&path.parent().unwrap()), "/a");
    assert_eq!(path.file_name().unwrap().text(), "b.tar.gz");
    assert_eq!(path.extension().as_deref(), Some("gz"));
    assert!(FsPath::new("/").parent().is_none());
    assert!(FsPath::new("/").file_name().is_none());
    assert_eq!(FsPath::new("/a/.hidden").extension(), None);
    assert_eq!(FsPath::new("/a/x.").extension().as_deref(), Some(""));
    assert_eq!(FsPath::new("/a/..").extension(), None);
}

#[test]
fn whole_components_decide_what_is_inside() {
    let base = FsPath::new("/a/b");
    assert!(FsPath::new("/a/b/c").starts_with(&base));
    assert!(base.starts_with(&base));
    assert!(!FsPath::new("/a/bc").starts_with(&base));
    assert_eq!(
        text(&FsPath::new("/a/b/c/d").strip_prefix(&base).unwrap()),
        "c/d"
    );
    assert!(FsPath::new("/x").strip_prefix(&base).is_none());
}

#[test]
fn an_ancestor_comes_before_what_is_in_it() {
    let sorted = sort(vec![
        FsPath::new("/a/b-backup"),
        FsPath::new("/a/b/c"),
        FsPath::new("/a/b"),
        FsPath::new("/Z"),
    ]);
    let texts: Vec<String> = sorted.iter().map(text).collect();
    assert_eq!(texts, vec!["/Z", "/a/b", "/a/b/c", "/a/b-backup"]);
    assert!(FsPath::new("/a").le(&FsPath::new("/a")));
}

#[test]
fn paths_are_ordered_as_the_standard_library_orders_them() {
    let names = ["/a", "/a/b", "/a/b-c", "/a/b/c", "/ab", "/é", "/z/..", "/z/a", "rel", "./x"];
    for x in names {
        for y in names {
            assert_eq!(
                FsPath::new(x).le(&FsPath::new(y)),
                Path::new(x) <= Path::new(y),
                "{x} {y}"
            );
        }
    }
}

#[test]
fn a_name_that_is_not_unicode_keeps_its_bytes() {
    let part = Part::Raw(vec![0x66, 0xff], "f\u{fffd}".to_owned());
    assert_eq!(part.to_str(), None);
    assert_eq!(part.text(), "f\u{fffd}");
    assert!(!part.same(&Part::name("f\u{fffd}")));
    assert!(part.same(&part.clone()));
    let path = FsPath::new("/a").child(&part);
    assert_eq!(text(&path), "/a/f\u{fffd}");
}
