//! The full report as text, with nothing cut short.

use vstd::prelude::*;

use crate::category::Category;
use crate::clock::Timestamp;
use crate::format::{age_text, fmt_size, path_text, size_text};
use crate::found::{
    categories_size, category_size, lemma_categories_size, lemma_categories_size_front, of_category,
    ranked_dirs, FoundDir, FoundDirView,
    FoundFile, FoundFileView, LargeDir, LargeDirView, ScanResult, ScanResultView,
};
use crate::order::lemma_in_order;
use crate::path::{FsPath, PathView};
use crate::report::{
    categories_total, child_name, last_used, last_used_text, name_of_child, Viewer, ViewerView,
    RULE_WIDTH,
};
use crate::sections::{
    category_list, cats_of, every_category_is_shown_once, lemma_section_cats, section_cats,
    sections, Section, SectionView,
};
use crate::text::{
    decimal, lemma_occurs_in_concat, number, occurs_at, occurs_in, pad_left, right_aligned, views,
};

verus! {

broadcast use crate::text::lemma_views_push;

// ---------------------------------------------------------------------------
// Specification
// ---------------------------------------------------------------------------

pub open spec fn double_rule() -> Seq<char> {
    Seq::new(RULE_WIDTH as nat, |i: int| '=')
}

/// One measured thing on a line of its own.
pub open spec fn row_text(
    size: u64,
    path: PathView,
    modified: Timestamp,
    viewer: ViewerView,
) -> Seq<char> {
    "    "@ + pad_left(size_text(size as nat), 10) + "  "@ + viewer.path(path) + "  ("@
        + viewer.age(modified) + ")\n"@
}

pub open spec fn dirs_text(dirs: Seq<FoundDirView>, viewer: ViewerView) -> Seq<char>
    decreases dirs.len(),
{
    if dirs.len() == 0 {
        Seq::empty()
    } else {
        let d = dirs.last();
        dirs_text(dirs.drop_last(), viewer) + row_text(d.size, d.path, d.last_modified, viewer)
    }
}

pub open spec fn files_text(files: Seq<FoundFileView>, viewer: ViewerView) -> Seq<char>
    decreases files.len(),
{
    if files.len() == 0 {
        Seq::empty()
    } else {
        let f = files.last();
        files_text(files.drop_last(), viewer) + row_text(f.size, f.path, f.modified, viewer)
    }
}

pub open spec fn safe_note(cat: Category) -> Seq<char> {
    if cat.is_regenerable() {
        "  (safe to delete)"@
    } else {
        ""@
    }
}

/// A category with all of its directories; nothing where it has none.
pub open spec fn category_text(
    dirs: Seq<FoundDirView>,
    cat: Category,
    viewer: ViewerView,
) -> Seq<char> {
    let ranked = ranked_dirs(dirs, cat);
    if ranked.len() == 0 {
        Seq::empty()
    } else {
        "\n  "@ + cat.label_text() + "  "@ + size_text(category_size(dirs, cat)) + safe_note(cat)
            + "\n"@ + dirs_text(ranked, viewer)
    }
}

pub open spec fn cats_text(
    dirs: Seq<FoundDirView>,
    cats: Seq<Category>,
    viewer: ViewerView,
) -> Seq<char>
    decreases cats.len(),
{
    if cats.len() == 0 {
        Seq::empty()
    } else {
        cats_text(dirs, cats.drop_last(), viewer) + category_text(dirs, cats.last(), viewer)
    }
}

/// A section, which is left out where its categories are all empty.
pub open spec fn section_text(
    dirs: Seq<FoundDirView>,
    section: SectionView,
    viewer: ViewerView,
) -> Seq<char> {
    let total = categories_size(dirs, section.cats);
    if total == 0 {
        Seq::empty()
    } else {
        "\n["@ + section.title + "]  "@ + size_text(total) + "\n"@ + cats_text(
            dirs,
            section.cats,
            viewer,
        )
    }
}

pub open spec fn sections_text(
    dirs: Seq<FoundDirView>,
    all: Seq<SectionView>,
    viewer: ViewerView,
) -> Seq<char>
    decreases all.len(),
{
    if all.len() == 0 {
        Seq::empty()
    } else {
        sections_text(dirs, all.drop_last(), viewer) + section_text(dirs, all.last(), viewer)
    }
}

pub open spec fn children_text(children: Seq<(PathView, u64)>) -> Seq<char>
    decreases children.len(),
{
    if children.len() == 0 {
        Seq::empty()
    } else {
        let c = children.last();
        children_text(children.drop_last()) + ("    "@ + pad_left(size_text(c.1 as nat), 10) + "  "@
            + child_name(c.0) + "\n"@)
    }
}

pub open spec fn stale_note(modified: Timestamp, viewer: ViewerView) -> Seq<char> {
    if viewer.is_stale(modified) {
        "  [stale]"@
    } else {
        ""@
    }
}

pub open spec fn large_dir_text(d: LargeDirView, viewer: ViewerView) -> Seq<char> {
    "\n  "@ + size_text(d.size as nat) + "  "@ + viewer.path(d.path) + "  "@ + last_used(
        viewer.age(d.last_modified),
    ) + stale_note(d.last_modified, viewer) + "\n"@ + children_text(d.notable_children)
}

pub open spec fn large_dirs_text(dirs: Seq<LargeDirView>, viewer: ViewerView) -> Seq<char>
    decreases dirs.len(),
{
    if dirs.len() == 0 {
        Seq::empty()
    } else {
        large_dirs_text(dirs.drop_last(), viewer) + large_dir_text(dirs.last(), viewer)
    }
}

pub open spec fn unknown_text(dirs: Seq<LargeDirView>, viewer: ViewerView) -> Seq<char> {
    if dirs.len() == 0 {
        Seq::empty()
    } else {
        "\n[UNEXPLORED LARGE DIRECTORIES]  (not matched by any known pattern)\n"@
            + large_dirs_text(dirs, viewer)
    }
}

/// A list of files under its heading; nothing where there are none.
pub open spec fn listing_text(
    files: Seq<FoundFileView>,
    heading: Seq<char>,
    viewer: ViewerView,
) -> Seq<char> {
    if files.len() == 0 {
        Seq::empty()
    } else {
        heading + files_text(files, viewer)
    }
}

pub open spec fn errors_text(errors: nat) -> Seq<char> {
    if errors > 0 {
        "note: "@ + decimal(errors) + " directories skipped due to permission errors\n"@
    } else {
        Seq::empty()
    }
}

pub open spec fn full_text(result: ScanResultView, viewer: ViewerView) -> Seq<char> {
    "diskscout -- full storage cleanup report\n"@ + double_rule() + "\n"@ + sections_text(
        result.dirs,
        sections(),
        viewer,
    ) + unknown_text(result.large_unknown_dirs, viewer) + listing_text(
        result.large_files,
        "\n[LARGE FILES]  (review before deleting)\n"@,
        viewer,
    ) + listing_text(
        result.old_files,
        "\n[OLD UNUSED FILES]  (not modified in 6+ months)\n"@,
        viewer,
    ) + listing_text(
        result.disk_images,
        "\n[DISK IMAGES]  (.dmg / .iso / .pkg) -- forgotten installers\n"@,
        viewer,
    ) + "\n"@ + double_rule() + "\nTOTAL RECLAIMABLE (dirs + disk images):  "@ + size_text(
        result.reclaimable(),
    ) + "\n"@ + errors_text(result.permission_errors)
}

// ---------------------------------------------------------------------------
// Code
// ---------------------------------------------------------------------------

fn rule() -> (r: String)
    ensures
        r@ == double_rule(),
{
    let mut out = String::new();
    for i in 0..RULE_WIDTH
        invariant
            out@ =~= double_rule().take(i as int),
    {
        out.push('=');
    }
    assert(double_rule().take(RULE_WIDTH as int) =~= double_rule());
    out
}

fn row(size: u64, path: &FsPath, modified: Timestamp, viewer: &Viewer) -> (r: String)
    ensures
        r@ == row_text(size, path@, modified, viewer@),
{
    let mut out = "    ".to_owned();
    out.append(right_aligned(fmt_size(size).as_str(), 10).as_str());
    out.append("  ");
    out.append(viewer.path(path).as_str());
    out.append("  (");
    out.append(viewer.age(modified).as_str());
    out.append(")\n");
    out
}

fn write_dirs(dirs: &Vec<&FoundDir>, viewer: &Viewer) -> (r: String)
    ensures
        r@ == dirs_text(views(dirs@), viewer@),
{
    let ghost all = views(dirs@);
    let mut out = String::new();
    assert(out@ =~= dirs_text(all.take(0), viewer@));
    for i in 0..dirs.len()
        invariant
            all == views(dirs@),
            out@ == dirs_text(all.take(i as int), viewer@),
    {
        assert(all.take(i + 1).drop_last() =~= all.take(i as int));
        let d = dirs[i];
        assert(all[i as int] == d@);
        out.append(row(d.size, &d.path, d.last_modified, viewer).as_str());
    }
    assert(all.take(all.len() as int) =~= all);
    out
}

fn write_files(files: &Vec<FoundFile>, viewer: &Viewer) -> (r: String)
    ensures
        r@ == files_text(views(files@), viewer@),
{
    let ghost all = views(files@);
    let mut out = String::new();
    assert(out@ =~= files_text(all.take(0), viewer@));
    for i in 0..files.len()
        invariant
            all == views(files@),
            out@ == files_text(all.take(i as int), viewer@),
    {
        assert(all.take(i + 1).drop_last() =~= all.take(i as int));
        let f = &files[i];
        assert(all[i as int] == f@);
        out.append(row(f.size, &f.path, f.modified, viewer).as_str());
    }
    assert(all.take(all.len() as int) =~= all);
    out
}

fn write_children(children: &Vec<(FsPath, u64)>) -> (r: String)
    ensures
        r@ == children_text(views(children@)),
{
    let ghost all = views(children@);
    let mut out = String::new();
    assert(out@ =~= children_text(all.take(0)));
    for i in 0..children.len()
        invariant
            all == views(children@),
            out@ == children_text(all.take(i as int)),
    {
        assert(all.take(i + 1).drop_last() =~= all.take(i as int));
        let child = &children[i];
        assert(all[i as int] == (child.0@, child.1));
        let mut line = "    ".to_owned();
        line.append(right_aligned(fmt_size(child.1).as_str(), 10).as_str());
        line.append("  ");
        line.append(name_of_child(&child.0).as_str());
        line.append("\n");
        out.append(line.as_str());
    }
    assert(all.take(all.len() as int) =~= all);
    out
}

fn write_category(result: &ScanResult, cat: Category, viewer: &Viewer) -> (r: String)
    requires
        category_size(result@.dirs, cat) <= u64::MAX,
    ensures
        r@ == category_text(result@.dirs, cat, viewer@),
{
    let dirs = result.dirs_by_category(cat);
    if dirs.len() == 0 {
        let none = String::new();
        assert(none@ =~= Seq::empty());
        return none;
    }
    let mut out = "\n  ".to_owned();
    out.append(cat.label());
    out.append("  ");
    out.append(fmt_size(result.category_total(cat)).as_str());
    out.append(
        if cat.safe_to_delete() {
            "  (safe to delete)"
        } else {
            ""
        },
    );
    out.append("\n");
    out.append(write_dirs(&dirs, viewer).as_str());
    out
}

fn write_section(result: &ScanResult, section: &Section, viewer: &Viewer) -> (r: String)
    requires
        categories_size(result@.dirs, section@.cats) <= u64::MAX,
    ensures
        r@ == section_text(result@.dirs, section@, viewer@),
{
    let total = categories_total(result, &section.cats);
    if total == 0 {
        let none = String::new();
        assert(none@ =~= Seq::empty());
        return none;
    }
    let ghost cats = section@.cats;
    let mut body = String::new();
    assert(body@ =~= cats_text(result@.dirs, cats.take(0), viewer@));
    for i in 0..section.cats.len()
        invariant
            categories_size(result@.dirs, cats) <= u64::MAX,
            cats == section.cats@,
            body@ == cats_text(result@.dirs, cats.take(i as int), viewer@),
    {
        proof {
            assert(cats.take(i + 1).drop_last() =~= cats.take(i as int));
            lemma_categories_size_front(result@.dirs, cats, i as int);
        }
        body.append(write_category(result, section.cats[i], viewer).as_str());
    }
    assert(cats.take(cats.len() as int) =~= cats);
    let mut out = "\n[".to_owned();
    out.append(section.title);
    out.append("]  ");
    out.append(fmt_size(total).as_str());
    out.append("\n");
    out.append(body.as_str());
    out
}

fn write_sections(result: &ScanResult, viewer: &Viewer) -> (r: String)
    requires
        result@.fits(),
    ensures
        r@ == sections_text(result@.dirs, sections(), viewer@),
{
    let list = section_cats();
    let ghost all = views(list@);
    let mut out = String::new();
    assert(out@ =~= sections_text(result@.dirs, all.take(0), viewer@));
    for i in 0..list.len()
        invariant
            result@.fits(),
            all == views(list@),
            all == sections(),
            out@ == sections_text(result@.dirs, all.take(i as int), viewer@),
    {
        proof {
            assert(all.take(i + 1).drop_last() =~= all.take(i as int));
            lemma_section_cats(i as int);
            lemma_categories_size(result@.dirs, sections()[i as int].cats);
        }
        out.append(write_section(result, &list[i], viewer).as_str());
    }
    assert(all.take(all.len() as int) =~= all);
    out
}

fn write_large_dir(d: &LargeDir, viewer: &Viewer) -> (r: String)
    ensures
        r@ == large_dir_text(d@, viewer@),
{
    let mut out = "\n  ".to_owned();
    out.append(fmt_size(d.size).as_str());
    out.append("  ");
    out.append(viewer.path(&d.path).as_str());
    out.append("  ");
    out.append(last_used_text(viewer.age(d.last_modified).as_str()).as_str());
    out.append(
        if viewer.is_stale(d.last_modified) {
            "  [stale]"
        } else {
            ""
        },
    );
    out.append("\n");
    out.append(write_children(&d.notable_children).as_str());
    out
}

fn write_unknown(dirs: &Vec<LargeDir>, viewer: &Viewer) -> (r: String)
    ensures
        r@ == unknown_text(views(dirs@), viewer@),
{
    if dirs.len() == 0 {
        let none = String::new();
        assert(none@ =~= Seq::empty());
        return none;
    }
    let ghost all = views(dirs@);
    let mut body = String::new();
    assert(body@ =~= large_dirs_text(all.take(0), viewer@));
    for i in 0..dirs.len()
        invariant
            all == views(dirs@),
            body@ == large_dirs_text(all.take(i as int), viewer@),
    {
        assert(all.take(i + 1).drop_last() =~= all.take(i as int));
        body.append(write_large_dir(&dirs[i], viewer).as_str());
    }
    assert(all.take(all.len() as int) =~= all);
    let mut out =
        "\n[UNEXPLORED LARGE DIRECTORIES]  (not matched by any known pattern)\n".to_owned();
    out.append(body.as_str());
    out
}

fn write_listing(files: &Vec<FoundFile>, heading: &str, viewer: &Viewer) -> (r: String)
    ensures
        r@ == listing_text(views(files@), heading@, viewer@),
{
    if files.len() == 0 {
        let none = String::new();
        assert(none@ =~= Seq::empty());
        return none;
    }
    let mut out = heading.to_owned();
    out.append(write_files(files, viewer).as_str());
    out
}

fn write_errors(errors: usize) -> (r: String)
    ensures
        r@ == errors_text(errors as nat),
{
    if errors == 0 {
        let none = String::new();
        assert(none@ =~= Seq::empty());
        return none;
    }
    let mut out = "note: ".to_owned();
    out.append(number(errors as u128).as_str());
    out.append(" directories skipped due to permission errors\n");
    out
}

/// The text of the full report.
pub fn write_full_report(result: &ScanResult, viewer: &Viewer) -> (r: String)
    requires
        result@.fits(),
    ensures
        r@ == full_text(result@, viewer@),
{
    let mut out = "diskscout -- full storage cleanup report\n".to_owned();
    out.append(rule().as_str());
    out.append("\n");
    out.append(write_sections(result, viewer).as_str());
    out.append(write_unknown(&result.large_unknown_dirs, viewer).as_str());
    out.append(
        write_listing(
            &result.large_files,
            "\n[LARGE FILES]  (review before deleting)\n",
            viewer,
        ).as_str(),
    );
    out.append(
        write_listing(
            &result.old_files,
            "\n[OLD UNUSED FILES]  (not modified in 6+ months)\n",
            viewer,
        ).as_str(),
    );
    out.append(
        write_listing(
            &result.disk_images,
            "\n[DISK IMAGES]  (.dmg / .iso / .pkg) -- forgotten installers\n",
            viewer,
        ).as_str(),
    );
    out.append("\n");
    out.append(rule().as_str());
    out.append("\nTOTAL RECLAIMABLE (dirs + disk images):  ");
    out.append(fmt_size(result.grand_total()).as_str());
    out.append("\n");
    out.append(write_errors(result.permission_errors).as_str());
    out
}

// ---------------------------------------------------------------------------
// Laws
// ---------------------------------------------------------------------------

proof fn lemma_dir_row(dirs: Seq<FoundDirView>, viewer: ViewerView, i: int)
    requires
        0 <= i < dirs.len(),
    ensures
        occurs_in(
            row_text(dirs[i].size, dirs[i].path, dirs[i].last_modified, viewer),
            dirs_text(dirs, viewer),
        ),
    decreases dirs.len(),
{
    let d = dirs[i];
    let row = row_text(d.size, d.path, d.last_modified, viewer);
    let front = dirs_text(dirs.drop_last(), viewer);
    let l = dirs.last();
    if i < dirs.len() - 1 {
        lemma_dir_row(dirs.drop_last(), viewer, i);
    } else {
        lemma_occurs_whole(row);
    }
    lemma_occurs_in_concat(row, front, row_text(l.size, l.path, l.last_modified, viewer));
}

proof fn lemma_file_row(files: Seq<FoundFileView>, viewer: ViewerView, i: int)
    requires
        0 <= i < files.len(),
    ensures
        occurs_in(
            row_text(files[i].size, files[i].path, files[i].modified, viewer),
            files_text(files, viewer),
        ),
    decreases files.len(),
{
    let f = files[i];
    let row = row_text(f.size, f.path, f.modified, viewer);
    let front = files_text(files.drop_last(), viewer);
    let l = files.last();
    if i < files.len() - 1 {
        lemma_file_row(files.drop_last(), viewer, i);
    } else {
        lemma_occurs_whole(row);
    }
    lemma_occurs_in_concat(row, front, row_text(l.size, l.path, l.modified, viewer));
}

proof fn lemma_large_dir_row(dirs: Seq<LargeDirView>, viewer: ViewerView, i: int)
    requires
        0 <= i < dirs.len(),
    ensures
        occurs_in(large_dir_text(dirs[i], viewer), large_dirs_text(dirs, viewer)),
    decreases dirs.len(),
{
    let row = large_dir_text(dirs[i], viewer);
    if i < dirs.len() - 1 {
        lemma_large_dir_row(dirs.drop_last(), viewer, i);
    } else {
        lemma_occurs_whole(row);
    }
    lemma_occurs_in_concat(
        row,
        large_dirs_text(dirs.drop_last(), viewer),
        large_dir_text(dirs.last(), viewer),
    );
}

proof fn lemma_occurs_whole(s: Seq<char>)
    ensures
        occurs_in(s, s),
{
    assert(s.subrange(0, s.len() as int) =~= s);
    assert(occurs_at(s, s, 0));
}

proof fn lemma_of_category(dirs: Seq<FoundDirView>, i: int)
    requires
        0 <= i < dirs.len(),
    ensures
        of_category(dirs, dirs[i].category).contains(dirs[i]),
        category_size(dirs, dirs[i].category) >= dirs[i].size,
    decreases dirs.len(),
{
    let cat = dirs[i].category;
    let front = of_category(dirs.drop_last(), cat);
    let all = of_category(dirs, cat);
    if i < dirs.len() - 1 {
        lemma_of_category(dirs.drop_last(), i);
        let k = choose|k: int| 0 <= k < front.len() && front[k] == dirs[i];
        assert(all[k] == dirs[i]);
    } else {
        assert(all[front.len() as int] == dirs[i]);
    }
    if all.len() > front.len() {
        assert(all.drop_last() =~= front);
    }
}

proof fn lemma_category_row(
    dirs: Seq<FoundDirView>,
    cats: Seq<Category>,
    viewer: ViewerView,
    i: int,
)
    requires
        0 <= i < dirs.len(),
        cats.contains(dirs[i].category),
    ensures
        occurs_in(
            row_text(dirs[i].size, dirs[i].path, dirs[i].last_modified, viewer),
            cats_text(dirs, cats, viewer),
        ),
        categories_size(dirs, cats) >= dirs[i].size,
    decreases cats.len(),
{
    let d = dirs[i];
    let cat = d.category;
    let row = row_text(d.size, d.path, d.last_modified, viewer);
    let n = choose|n: int| 0 <= n < cats.len() && cats[n] == cat;
    if n < cats.len() - 1 {
        assert(cats.drop_last()[n] == cat);
        lemma_category_row(dirs, cats.drop_last(), viewer, i);
    } else {
        let ranked = ranked_dirs(dirs, cat);
        lemma_of_category(dirs, i);
        lemma_in_order::<FoundDir>(of_category(dirs, cat));
        assert(ranked.contains(d));
        let k = choose|k: int| 0 <= k < ranked.len() && ranked[k] == d;
        lemma_dir_row(ranked, viewer, k);
        lemma_occurs_in_concat(
            row,
            "\n  "@ + cat.label_text() + "  "@ + size_text(category_size(dirs, cat)) + safe_note(
                cat,
            ) + "\n"@,
            dirs_text(ranked, viewer),
        );
    }
    lemma_occurs_in_concat(
        row,
        cats_text(dirs, cats.drop_last(), viewer),
        category_text(dirs, cats.last(), viewer),
    );
}

proof fn lemma_section_row(
    dirs: Seq<FoundDirView>,
    all: Seq<SectionView>,
    viewer: ViewerView,
    i: int,
)
    requires
        0 <= i < dirs.len(),
        dirs[i].size > 0,
        cats_of(all).contains(dirs[i].category),
    ensures
        occurs_in(
            row_text(dirs[i].size, dirs[i].path, dirs[i].last_modified, viewer),
            sections_text(dirs, all, viewer),
        ),
    decreases all.len(),
{
    let d = dirs[i];
    let row = row_text(d.size, d.path, d.last_modified, viewer);
    let front = cats_of(all.drop_last());
    let last = all.last();
    let n = choose|n: int| 0 <= n < cats_of(all).len() && cats_of(all)[n] == d.category;
    if n < front.len() {
        assert(front[n] == d.category);
        lemma_section_row(dirs, all.drop_last(), viewer, i);
    } else {
        assert(last.cats[n - front.len()] == d.category);
        lemma_category_row(dirs, last.cats, viewer, i);
        lemma_occurs_in_concat(
            row,
            "\n["@ + last.title + "]  "@ + size_text(categories_size(dirs, last.cats)) + "\n"@,
            cats_text(dirs, last.cats, viewer),
        );
    }
    lemma_occurs_in_concat(
        row,
        sections_text(dirs, all.drop_last(), viewer),
        section_text(dirs, last, viewer),
    );
}

/// What the full report says ahead of its totals.
spec fn body_text(result: ScanResultView, viewer: ViewerView) -> Seq<char> {
    "diskscout -- full storage cleanup report\n"@ + double_rule() + "\n"@ + sections_text(
        result.dirs,
        sections(),
        viewer,
    ) + unknown_text(result.large_unknown_dirs, viewer) + listing_text(
        result.large_files,
        "\n[LARGE FILES]  (review before deleting)\n"@,
        viewer,
    ) + listing_text(
        result.old_files,
        "\n[OLD UNUSED FILES]  (not modified in 6+ months)\n"@,
        viewer,
    ) + listing_text(
        result.disk_images,
        "\n[DISK IMAGES]  (.dmg / .iso / .pkg) -- forgotten installers\n"@,
        viewer,
    )
}

proof fn lemma_body_in_full(part: Seq<char>, result: ScanResultView, viewer: ViewerView)
    requires
        occurs_in(part, body_text(result, viewer)),
    ensures
        occurs_in(part, full_text(result, viewer)),
{
    let a = body_text(result, viewer);
    let b = a + "\n"@;
    let c = b + double_rule();
    let d = c + "\nTOTAL RECLAIMABLE (dirs + disk images):  "@;
    let e = d + size_text(result.reclaimable());
    let f = e + "\n"@;
    lemma_occurs_in_concat(part, a, "\n"@);
    lemma_occurs_in_concat(part, b, double_rule());
    lemma_occurs_in_concat(part, c, "\nTOTAL RECLAIMABLE (dirs + disk images):  "@);
    lemma_occurs_in_concat(part, d, size_text(result.reclaimable()));
    lemma_occurs_in_concat(part, e, "\n"@);
    lemma_occurs_in_concat(part, f, errors_text(result.permission_errors));
}

proof fn lemma_part_in_body(part: Seq<char>, result: ScanResultView, viewer: ViewerView)
    requires
        occurs_in(part, sections_text(result.dirs, sections(), viewer)) || occurs_in(
            part,
            unknown_text(result.large_unknown_dirs, viewer),
        ) || occurs_in(
            part,
            listing_text(
                result.large_files,
                "\n[LARGE FILES]  (review before deleting)\n"@,
                viewer,
            ),
        ) || occurs_in(
            part,
            listing_text(
                result.old_files,
                "\n[OLD UNUSED FILES]  (not modified in 6+ months)\n"@,
                viewer,
            ),
        ) || occurs_in(
            part,
            listing_text(
                result.disk_images,
                "\n[DISK IMAGES]  (.dmg / .iso / .pkg) -- forgotten installers\n"@,
                viewer,
            ),
        ),
    ensures
        occurs_in(part, full_text(result, viewer)),
{
    let head = "diskscout -- full storage cleanup report\n"@ + double_rule() + "\n"@;
    let dirs = sections_text(result.dirs, sections(), viewer);
    let unknown = unknown_text(result.large_unknown_dirs, viewer);
    let large = listing_text(
        result.large_files,
        "\n[LARGE FILES]  (review before deleting)\n"@,
        viewer,
    );
    let stale = listing_text(
        result.old_files,
        "\n[OLD UNUSED FILES]  (not modified in 6+ months)\n"@,
        viewer,
    );
    let images = listing_text(
        result.disk_images,
        "\n[DISK IMAGES]  (.dmg / .iso / .pkg) -- forgotten installers\n"@,
        viewer,
    );
    if occurs_in(part, dirs) {
        lemma_occurs_in_concat(part, head, dirs);
    }
    if occurs_in(part, head + dirs) || occurs_in(part, unknown) {
        lemma_occurs_in_concat(part, head + dirs, unknown);
    }
    if occurs_in(part, head + dirs + unknown) || occurs_in(part, large) {
        lemma_occurs_in_concat(part, head + dirs + unknown, large);
    }
    if occurs_in(part, head + dirs + unknown + large) || occurs_in(part, stale) {
        lemma_occurs_in_concat(part, head + dirs + unknown + large, stale);
    }
    lemma_occurs_in_concat(part, head + dirs + unknown + large + stale, images);
    lemma_body_in_full(part, result, viewer);
}

/// The full report leaves out no directory that holds something.
pub proof fn every_directory_is_in_the_full_report(
    result: ScanResultView,
    viewer: ViewerView,
    i: int,
)
    requires
        0 <= i < result.dirs.len(),
        result.dirs[i].size > 0,
    ensures
        occurs_in(
            row_text(
                result.dirs[i].size,
                result.dirs[i].path,
                result.dirs[i].last_modified,
                viewer,
            ),
            full_text(result, viewer),
        ),
{
    let d = result.dirs[i];
    every_category_is_shown_once();
    assert(category_list().contains(d.category));
    lemma_section_row(result.dirs, sections(), viewer, i);
    lemma_part_in_body(row_text(d.size, d.path, d.last_modified, viewer), result, viewer);
}

/// The full report leaves out no file of the three lists.
pub proof fn every_file_is_in_the_full_report(
    result: ScanResultView,
    viewer: ViewerView,
    file: FoundFileView,
)
    requires
        result.large_files.contains(file) || result.old_files.contains(file)
            || result.disk_images.contains(file),
    ensures
        occurs_in(
            row_text(file.size, file.path, file.modified, viewer),
            full_text(result, viewer),
        ),
{
    let row = row_text(file.size, file.path, file.modified, viewer);
    let files = if result.large_files.contains(file) {
        result.large_files
    } else if result.old_files.contains(file) {
        result.old_files
    } else {
        result.disk_images
    };
    let i = choose|i: int| 0 <= i < files.len() && files[i] == file;
    lemma_file_row(files, viewer, i);
    lemma_occurs_in_concat(
        row,
        "\n[LARGE FILES]  (review before deleting)\n"@,
        files_text(files, viewer),
    );
    lemma_occurs_in_concat(
        row,
        "\n[OLD UNUSED FILES]  (not modified in 6+ months)\n"@,
        files_text(files, viewer),
    );
    lemma_occurs_in_concat(
        row,
        "\n[DISK IMAGES]  (.dmg / .iso / .pkg) -- forgotten installers\n"@,
        files_text(files, viewer),
    );
    lemma_part_in_body(row, result, viewer);
}

/// The full report leaves out no unexplored directory.
pub proof fn every_unexplored_directory_is_in_the_full_report(
    result: ScanResultView,
    viewer: ViewerView,
    i: int,
)
    requires
        0 <= i < result.large_unknown_dirs.len(),
    ensures
        occurs_in(
            large_dir_text(result.large_unknown_dirs[i], viewer),
            full_text(result, viewer),
        ),
{
    let dirs = result.large_unknown_dirs;
    let part = large_dir_text(dirs[i], viewer);
    lemma_large_dir_row(dirs, viewer, i);
    lemma_occurs_in_concat(
        part,
        "\n[UNEXPLORED LARGE DIRECTORIES]  (not matched by any known pattern)\n"@,
        large_dirs_text(dirs, viewer),
    );
    lemma_part_in_body(part, result, viewer);
}

/// In the full report a directory or a file has a row of its own: its size in a
/// column of ten, its path and its age.
pub proof fn a_row_shows_size_path_and_age(
    size: u64,
    path: PathView,
    modified: Timestamp,
    viewer: ViewerView,
)
    ensures
        row_text(size, path, modified, viewer) == "    "@ + pad_left(size_text(size as nat), 10)
            + "  "@ + path_text(path, viewer.home, viewer.sep) + "  ("@ + age_text(
            modified,
            viewer.now,
        ) + ")\n"@,
{
}

/// An unexplored directory has a row of its own, marked where it is stale, and one
/// for each of its largest subdirectories.
pub proof fn an_unexplored_directory_is_written_out(
    d: LargeDirView,
    child: (PathView, u64),
    children: Seq<(PathView, u64)>,
    viewer: ViewerView,
)
    ensures
        large_dir_text(d, viewer) == "\n  "@ + size_text(d.size as nat) + "  "@ + path_text(
            d.path,
            viewer.home,
            viewer.sep,
        ) + "  "@ + ("(last used: "@ + age_text(d.last_modified, viewer.now) + ")"@) + (
        if viewer.now.nanos - d.last_modified.nanos >= 180 * 86_400 * 1_000_000_000 {
            "  [stale]"@
        } else {
            ""@
        }) + "\n"@ + children_text(d.notable_children),
        children_text(Seq::empty()) == Seq::<char>::empty(),
        children_text(children.push(child)) == children_text(children) + ("    "@ + pad_left(
            size_text(child.1 as nat),
            10,
        ) + "  "@ + child_name(child.0) + "\n"@),
{
    crate::report::stale_means_half_a_year(viewer, d.last_modified);
    assert(children.push(child).drop_last() =~= children);
}

/// A category with directories is headed by its name, its total and whether it is
/// safe to delete; all of its directories follow. One without is left out.
pub proof fn a_category_is_written_out(dirs: Seq<FoundDirView>, cat: Category, viewer: ViewerView)
    ensures
        ranked_dirs(dirs, cat).len() == 0 ==> category_text(dirs, cat, viewer).len() == 0,
        ranked_dirs(dirs, cat).len() > 0 ==> category_text(dirs, cat, viewer) == "\n  "@
            + cat.label_text() + "  "@ + size_text(category_size(dirs, cat)) + (
        if cat.is_regenerable() {
            "  (safe to delete)"@
        } else {
            ""@
        }) + "\n"@ + dirs_text(ranked_dirs(dirs, cat), viewer),
{
}

/// Rows follow one another, one for each directory or file, in order.
pub proof fn rows_follow_one_another(
    dirs: Seq<FoundDirView>,
    d: FoundDirView,
    files: Seq<FoundFileView>,
    f: FoundFileView,
    viewer: ViewerView,
)
    ensures
        dirs_text(Seq::empty(), viewer) == Seq::<char>::empty(),
        dirs_text(dirs.push(d), viewer) == dirs_text(dirs, viewer) + row_text(
            d.size,
            d.path,
            d.last_modified,
            viewer,
        ),
        files_text(Seq::empty(), viewer) == Seq::<char>::empty(),
        files_text(files.push(f), viewer) == files_text(files, viewer) + row_text(
            f.size,
            f.path,
            f.modified,
            viewer,
        ),
{
    assert(dirs.push(d).drop_last() =~= dirs);
    assert(files.push(f).drop_last() =~= files);
}

/// A section that holds something is headed by its title in brackets and its total;
/// its categories follow. One that holds nothing is left out.
pub proof fn a_section_is_written_out(
    dirs: Seq<FoundDirView>,
    section: SectionView,
    viewer: ViewerView,
)
    ensures
        categories_size(dirs, section.cats) == 0 ==> section_text(dirs, section, viewer).len() == 0,
        categories_size(dirs, section.cats) > 0 ==> section_text(dirs, section, viewer) == "\n["@
            + section.title + "]  "@ + size_text(categories_size(dirs, section.cats)) + "\n"@
            + cats_text(dirs, section.cats, viewer),
{
}

/// A list of files that is not empty stands in the full report under its heading.
pub proof fn the_full_report_heads_its_lists(result: ScanResultView, viewer: ViewerView)
    ensures
        result.large_files.len() > 0 ==> occurs_in(
            "\n[LARGE FILES]  (review before deleting)\n"@ + files_text(
                result.large_files,
                viewer,
            ),
            full_text(result, viewer),
        ),
        result.old_files.len() > 0 ==> occurs_in(
            "\n[OLD UNUSED FILES]  (not modified in 6+ months)\n"@ + files_text(
                result.old_files,
                viewer,
            ),
            full_text(result, viewer),
        ),
        result.disk_images.len() > 0 ==> occurs_in(
            "\n[DISK IMAGES]  (.dmg / .iso / .pkg) -- forgotten installers\n"@ + files_text(
                result.disk_images,
                viewer,
            ),
            full_text(result, viewer),
        ),
        result.large_unknown_dirs.len() > 0 ==> occurs_in(
            "\n[UNEXPLORED LARGE DIRECTORIES]  (not matched by any known pattern)\n"@
                + large_dirs_text(result.large_unknown_dirs, viewer),
            full_text(result, viewer),
        ),
{
    let large = "\n[LARGE FILES]  (review before deleting)\n"@ + files_text(
        result.large_files,
        viewer,
    );
    let stale = "\n[OLD UNUSED FILES]  (not modified in 6+ months)\n"@ + files_text(
        result.old_files,
        viewer,
    );
    let images = "\n[DISK IMAGES]  (.dmg / .iso / .pkg) -- forgotten installers\n"@ + files_text(
        result.disk_images,
        viewer,
    );
    let unknown = "\n[UNEXPLORED LARGE DIRECTORIES]  (not matched by any known pattern)\n"@
        + large_dirs_text(result.large_unknown_dirs, viewer);
    lemma_occurs_whole(large);
    lemma_occurs_whole(stale);
    lemma_occurs_whole(images);
    lemma_occurs_whole(unknown);
    if result.large_files.len() > 0 {
        lemma_part_in_body(large, result, viewer);
    }
    if result.old_files.len() > 0 {
        lemma_part_in_body(stale, result, viewer);
    }
    if result.disk_images.len() > 0 {
        lemma_part_in_body(images, result, viewer);
    }
    if result.large_unknown_dirs.len() > 0 {
        lemma_part_in_body(unknown, result, viewer);
    }
}

/// The full report opens with its title over a double rule of sixty, and closes
/// with the total under a like rule and what could not be read.
pub proof fn the_full_report_opens_and_closes(result: ScanResultView, viewer: ViewerView)
    ensures
        ("diskscout -- full storage cleanup report\n"@ + double_rule() + "\n"@).is_prefix_of(
            full_text(result, viewer),
        ),
        double_rule().len() == 60,
        forall|i: int| 0 <= i < 60 ==> #[trigger] double_rule()[i] == '=',
        ("\n"@ + double_rule() + "\nTOTAL RECLAIMABLE (dirs + disk images):  "@ + size_text(
            result.reclaimable(),
        ) + "\n"@ + if result.permission_errors > 0 {
            "note: "@ + decimal(result.permission_errors)
                + " directories skipped due to permission errors\n"@
        } else {
            Seq::empty()
        }).is_suffix_of(full_text(result, viewer)),
{
    let opening = "diskscout -- full storage cleanup report\n"@ + double_rule() + "\n"@;
    let a = opening + sections_text(result.dirs, sections(), viewer);
    let b = a + unknown_text(result.large_unknown_dirs, viewer);
    let c = b + listing_text(
        result.large_files,
        "\n[LARGE FILES]  (review before deleting)\n"@,
        viewer,
    );
    let d = c + listing_text(
        result.old_files,
        "\n[OLD UNUSED FILES]  (not modified in 6+ months)\n"@,
        viewer,
    );
    let body = body_text(result, viewer);
    let foot = "\n"@;
    let ruled = foot + double_rule();
    let named = ruled + "\nTOTAL RECLAIMABLE (dirs + disk images):  "@;
    let summed = named + size_text(result.reclaimable());
    let ended = summed + "\n"@;
    let e = body + "\n"@;
    let f = e + double_rule();
    let g = f + "\nTOTAL RECLAIMABLE (dirs + disk images):  "@;
    let h = g + size_text(result.reclaimable());
    let i = h + "\n"@;
    let errors = errors_text(result.permission_errors);
    lemma_start_stays(opening, opening, sections_text(result.dirs, sections(), viewer));
    lemma_start_stays(opening, a, unknown_text(result.large_unknown_dirs, viewer));
    lemma_start_stays(
        opening,
        b,
        listing_text(
            result.large_files,
            "\n[LARGE FILES]  (review before deleting)\n"@,
            viewer,
        ),
    );
    lemma_start_stays(
        opening,
        c,
        listing_text(
            result.old_files,
            "\n[OLD UNUSED FILES]  (not modified in 6+ months)\n"@,
            viewer,
        ),
    );
    lemma_start_stays(
        opening,
        d,
        listing_text(
            result.disk_images,
            "\n[DISK IMAGES]  (.dmg / .iso / .pkg) -- forgotten installers\n"@,
            viewer,
        ),
    );
    lemma_start_stays(opening, body, "\n"@);
    lemma_start_stays(opening, e, double_rule());
    lemma_start_stays(opening, f, "\nTOTAL RECLAIMABLE (dirs + disk images):  "@);
    lemma_start_stays(opening, g, size_text(result.reclaimable()));
    lemma_start_stays(opening, h, "\n"@);
    lemma_start_stays(opening, i, errors);
    assert(e.subrange(body.len() as int, e.len() as int) =~= foot);
    lemma_end_grows(foot, e, double_rule());
    lemma_end_grows(ruled, f, "\nTOTAL RECLAIMABLE (dirs + disk images):  "@);
    lemma_end_grows(named, g, size_text(result.reclaimable()));
    lemma_end_grows(summed, h, "\n"@);
    lemma_end_grows(ended, i, errors);
}

proof fn lemma_start_stays(start: Seq<char>, text: Seq<char>, more: Seq<char>)
    requires
        start.is_prefix_of(text),
    ensures
        start.is_prefix_of(text + more),
{
    assert((text + more).subrange(0, start.len() as int) =~= text.subrange(0, start.len() as int));
}

proof fn lemma_end_grows(end: Seq<char>, text: Seq<char>, more: Seq<char>)
    requires
        end.is_suffix_of(text),
    ensures
        (end + more).is_suffix_of(text + more),
{
    let all = text + more;
    assert(all.subrange(text.len() - end.len(), all.len() as int) =~= text.subrange(
        text.len() - end.len(),
        text.len() as int,
    ) + more);
}

} // verus!
