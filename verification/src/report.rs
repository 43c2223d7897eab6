//! The report on the terminal.

use vstd::prelude::*;

use crate::category::Category;
use crate::clock::{older_than, Timestamp};
use crate::format::{age_text, display_path, fmt_age_at, fmt_size, path_text, size_text};
use crate::found::{
    categories_size, category_size, lemma_categories_size, lemma_categories_size_front, ranked_dirs,
    FoundDirView, FoundFile, FoundFileView, LargeDir, LargeDirView, ReservedFile,
    ReservedFileView, ScanResult, ScanResultView,
};
use crate::path::{path_file_name, unicode, FsPath, PathView};
use crate::sections::{lemma_section_cats, section_cats, sections, Section, SectionView};
use crate::style::{plain, styled, Line, LineView, Span, Style};
use crate::text::{decimal, left_aligned, number, pad_left, pad_right, right_aligned, views};

verus! {

broadcast use crate::text::lemma_views_push;

pub const STALE_DAYS: u64 = 180;

/// The width of the rule above and below the report.
pub const RULE_WIDTH: usize = 60;

/// How many directories of a category are shown.
pub const DIRS_SHOWN: usize = 8;

/// Who reads the report, where and when: paths are shown relative to `home`,
/// from which `sep` parts them, and ages as of `now`.
pub struct Viewer {
    pub home: FsPath,
    pub sep: char,
    pub now: Timestamp,
}

#[verifier::ext_equal]
pub struct ViewerView {
    pub home: PathView,
    pub sep: char,
    pub now: Timestamp,
}

impl View for Viewer {
    type V = ViewerView;

    open spec fn view(&self) -> ViewerView {
        ViewerView { home: self.home@, sep: self.sep, now: self.now }
    }
}

impl ViewerView {
    pub open spec fn path(self, path: PathView) -> Seq<char> {
        path_text(path, self.home, self.sep)
    }

    pub open spec fn age(self, modified: Timestamp) -> Seq<char> {
        age_text(modified, self.now)
    }

    pub open spec fn is_stale(self, modified: Timestamp) -> bool {
        older_than(modified, self.now, (STALE_DAYS * 86_400) as u64)
    }
}

impl Viewer {
    pub fn path(&self, path: &FsPath) -> (r: String)
        ensures
            r@ == self@.path(path@),
    {
        display_path(path, &self.home, self.sep)
    }

    pub fn age(&self, modified: Timestamp) -> (r: String)
        ensures
            r@ == self@.age(modified),
    {
        fmt_age_at(modified, self.now)
    }

    pub fn is_stale(&self, modified: Timestamp) -> (r: bool)
        ensures
            r == self@.is_stale(modified),
    {
        modified.at_least_before(&self.now, STALE_DAYS * 86_400)
    }
}

// ---------------------------------------------------------------------------
// Pieces
// ---------------------------------------------------------------------------

pub open spec fn rule_text() -> Seq<char> {
    Seq::new(RULE_WIDTH as nat, |i: int| '─')
}

fn rule() -> (r: String)
    ensures
        r@ == rule_text(),
{
    let mut out = String::new();
    for i in 0..RULE_WIDTH
        invariant
            out@ =~= rule_text().take(i as int),
    {
        out.push('─');
    }
    assert(rule_text().take(RULE_WIDTH as int) =~= rule_text());
    out
}

/// A text in brackets.
pub open spec fn bracketed(text: Seq<char>) -> Seq<char> {
    "("@ + text + ")"@
}

fn in_brackets(text: &str) -> (r: String)
    ensures
        r@ == bracketed(text@),
{
    let mut out = "(".to_owned();
    out.append(text);
    out.append(")");
    out
}

/// A size, right-aligned in a column of ten.
pub open spec fn size_column(size: u64) -> Seq<char> {
    pad_left(size_text(size as nat), 10)
}

fn size_cell(size: u64) -> (r: String)
    ensures
        r@ == size_column(size),
{
    right_aligned(fmt_size(size).as_str(), 10)
}

pub open spec fn entry_line(
    size: u64,
    path: PathView,
    modified: Timestamp,
    age_style: Style,
    viewer: ViewerView,
) -> LineView {
    seq![
        plain("      "@),
        styled(size_column(size), Style::Green),
        plain("  "@),
        styled(viewer.path(path), Style::Dimmed),
        plain("  "@),
        styled(bracketed(viewer.age(modified)), age_style),
    ]
}

fn entry(size: u64, path: &FsPath, modified: Timestamp, age_style: Style, viewer: &Viewer) -> (r:
    Line)
    ensures
        r@ == entry_line(size, path@, modified, age_style, viewer@),
{
    let spans: Vec<Span> = vec![
        Span::plain("      "),
        Span::new(size_cell(size).as_str(), Style::Green),
        Span::plain("  "),
        Span::new(viewer.path(path).as_str(), Style::Dimmed),
        Span::plain("  "),
        Span::new(in_brackets(viewer.age(modified).as_str()).as_str(), age_style),
    ];
    assert(views(spans@) =~= entry_line(size, path@, modified, age_style, viewer@));
    Line::new(spans)
}

/// A heading in front of a remark.
pub open spec fn heading_line(title: Seq<char>, remark: Seq<char>) -> LineView {
    seq![plain("  "@), styled(title, Style::BoldYellow), plain(remark)]
}

fn heading(title: &str, remark: &str) -> (r: Line)
    ensures
        r@ == heading_line(title@, remark@),
{
    let spans: Vec<Span> = vec![
        Span::plain("  "),
        Span::new(title, Style::BoldYellow),
        Span::plain(remark),
    ];
    assert(views(spans@) =~= heading_line(title@, remark@));
    Line::new(spans)
}

pub open spec fn single(text: Seq<char>, style: Style) -> LineView {
    seq![styled(text, style)]
}

fn single_line(text: &str, style: Style) -> (r: Line)
    ensures
        r@ == single(text@, style),
{
    let spans: Vec<Span> = vec![Span::new(text, style)];
    assert(views(spans@) =~= single(text@, style));
    Line::new(spans)
}

// ---------------------------------------------------------------------------
// Categories
// ---------------------------------------------------------------------------

pub open spec fn category_head(cat: Category, total: nat) -> LineView {
    let head = seq![
        plain("    "@),
        styled(pad_right(cat.label_text(), 28), Style::Cyan),
        plain(" "@),
        styled(size_text(total), Style::Bold),
    ];
    if cat.is_regenerable() {
        head.push(styled(" (safe to delete)"@, Style::Dimmed))
    } else {
        head
    }
}

/// The lines of the first directories, as many as are shown.
pub open spec fn dir_lines(dirs: Seq<FoundDirView>, viewer: ViewerView) -> Seq<LineView> {
    let shown = if dirs.len() > DIRS_SHOWN {
        DIRS_SHOWN as nat
    } else {
        dirs.len()
    };
    Seq::new(
        shown,
        |i: int|
            entry_line(
                dirs[i].size,
                dirs[i].path,
                dirs[i].last_modified,
                Style::Dimmed,
                viewer,
            ),
    )
}

pub open spec fn more_dirs(count: nat) -> Seq<LineView> {
    if count > DIRS_SHOWN {
        seq![
            single("      "@ + decimal((count - DIRS_SHOWN) as nat) + " more..."@, Style::Plain),
        ]
    } else {
        Seq::empty()
    }
}

/// A category with the largest of its directories; nothing where it has none.
pub open spec fn category_lines(
    dirs: Seq<FoundDirView>,
    cat: Category,
    viewer: ViewerView,
) -> Seq<LineView> {
    let ranked = ranked_dirs(dirs, cat);
    if ranked.len() == 0 {
        Seq::empty()
    } else {
        seq![category_head(cat, category_size(dirs, cat))] + dir_lines(ranked, viewer)
            + more_dirs(ranked.len())
    }
}

pub open spec fn cats_lines(
    dirs: Seq<FoundDirView>,
    cats: Seq<Category>,
    viewer: ViewerView,
) -> Seq<LineView>
    decreases cats.len(),
{
    if cats.len() == 0 {
        Seq::empty()
    } else {
        cats_lines(dirs, cats.drop_last(), viewer) + category_lines(dirs, cats.last(), viewer)
    }
}

pub open spec fn section_head(title: Seq<char>, total: nat) -> LineView {
    seq![
        plain("  "@),
        styled(title, Style::BoldYellow),
        plain("  "@),
        styled(size_text(total), Style::Bold),
    ]
}

/// A section, which is left out where its categories are all empty.
pub open spec fn section_lines(
    dirs: Seq<FoundDirView>,
    section: SectionView,
    viewer: ViewerView,
) -> Seq<LineView> {
    let total = categories_size(dirs, section.cats);
    if total == 0 {
        Seq::empty()
    } else {
        seq![LineView::empty(), section_head(section.title, total)] + cats_lines(
            dirs,
            section.cats,
            viewer,
        )
    }
}

pub open spec fn sections_lines(
    dirs: Seq<FoundDirView>,
    all: Seq<SectionView>,
    viewer: ViewerView,
) -> Seq<LineView>
    decreases all.len(),
{
    if all.len() == 0 {
        Seq::empty()
    } else {
        sections_lines(dirs, all.drop_last(), viewer) + section_lines(dirs, all.last(), viewer)
    }
}

fn category_heading(cat: Category, total: u64) -> (r: Line)
    ensures
        r@ == category_head(cat, total as nat),
{
    let mut spans: Vec<Span> = vec![
        Span::plain("    "),
        Span::new(left_aligned(cat.label(), 28).as_str(), Style::Cyan),
        Span::plain(" "),
        Span::new(fmt_size(total).as_str(), Style::Bold),
    ];
    if cat.safe_to_delete() {
        spans.push(Span::new(" (safe to delete)", Style::Dimmed));
    }
    assert(views(spans@) =~= category_head(cat, total as nat));
    Line::new(spans)
}

fn push_category(result: &ScanResult, cat: Category, viewer: &Viewer, out: &mut Vec<Line>)
    requires
        category_size(result@.dirs, cat) <= u64::MAX,
    ensures
        views(final(out)@) == views(old(out)@) + category_lines(result@.dirs, cat, viewer@),
{
    let ghost had = views(out@);
    let dirs = result.dirs_by_category(cat);
    let ghost ranked = views(dirs@);
    if dirs.len() == 0 {
        assert(had + Seq::<LineView>::empty() =~= had);
        return;
    }
    out.push(category_heading(cat, result.category_total(cat)));
    let ghost head = had.push(category_head(cat, category_size(result@.dirs, cat)));
    let ghost want = dir_lines(ranked, viewer@);
    let mut i: usize = 0;
    while i < dirs.len() && i < DIRS_SHOWN
        invariant
            i <= dirs.len(),
            i <= DIRS_SHOWN,
            ranked == views(dirs@),
            want == dir_lines(ranked, viewer@),
            views(out@) =~= head + want.take(i as int),
        decreases dirs.len() - i,
    {
        let d = dirs[i];
        assert(ranked[i as int] == d@);
        out.push(entry(d.size, &d.path, d.last_modified, Style::Dimmed, viewer));
        i = i + 1;
    }
    assert(want.take(i as int) =~= want);
    if dirs.len() > DIRS_SHOWN {
        let mut more = "      ".to_owned();
        more.append(number((dirs.len() - DIRS_SHOWN) as u128).as_str());
        more.append(" more...");
        out.push(single_line(more.as_str(), Style::Plain));
    }
    assert(views(out@) =~= had + category_lines(result@.dirs, cat, viewer@));
}

/// The bytes in all of these categories.
pub fn categories_total(result: &ScanResult, cats: &Vec<Category>) -> (r: u64)
    requires
        categories_size(result@.dirs, cats@) <= u64::MAX,
    ensures
        r == categories_size(result@.dirs, cats@),
{
    let mut total: u64 = 0;
    for i in 0..cats.len()
        invariant
            categories_size(result@.dirs, cats@) <= u64::MAX,
            total == categories_size(result@.dirs, cats@.take(i as int)),
    {
        proof {
            assert(cats@.take(i + 1).drop_last() =~= cats@.take(i as int));
            lemma_categories_size_front(result@.dirs, cats@, i as int);
            lemma_categories_size_front(result@.dirs, cats@, i + 1);
        }
        total = total + result.category_total(cats[i]);
    }
    assert(cats@.take(cats@.len() as int) =~= cats@);
    total
}

fn push_section(result: &ScanResult, section: &Section, viewer: &Viewer, out: &mut Vec<Line>)
    requires
        categories_size(result@.dirs, section@.cats) <= u64::MAX,
    ensures
        views(final(out)@) == views(old(out)@) + section_lines(
            result@.dirs,
            section@,
            viewer@,
        ),
{
    let ghost had = views(out@);
    let total = categories_total(result, &section.cats);
    if total == 0 {
        assert(had + Seq::<LineView>::empty() =~= had);
        return;
    }
    let spans: Vec<Span> = vec![
        Span::plain("  "),
        Span::new(section.title, Style::BoldYellow),
        Span::plain("  "),
        Span::new(fmt_size(total).as_str(), Style::Bold),
    ];
    assert(views(spans@) =~= section_head(section@.title, total as nat));
    out.push(Line::blank());
    out.push(Line::new(spans));
    let ghost head = views(out@);
    let ghost cats = section@.cats;
    assert(head + cats_lines(result@.dirs, cats.take(0), viewer@) =~= head);
    for i in 0..section.cats.len()
        invariant
            categories_size(result@.dirs, cats) <= u64::MAX,
            cats == section.cats@,
            views(out@) == head + cats_lines(result@.dirs, cats.take(i as int), viewer@),
    {
        proof {
            assert(cats.take(i + 1).drop_last() =~= cats.take(i as int));
            lemma_categories_size_front(result@.dirs, cats, i as int);
        }
        push_category(result, section.cats[i], viewer, out);
        assert(views(out@) =~= head + cats_lines(result@.dirs, cats.take(i + 1), viewer@));
    }
    assert(cats.take(cats.len() as int) =~= cats);
    assert(views(out@) =~= had + section_lines(result@.dirs, section@, viewer@));
}

fn push_sections(result: &ScanResult, viewer: &Viewer, out: &mut Vec<Line>)
    requires
        result@.fits(),
    ensures
        views(final(out)@) == views(old(out)@) + sections_lines(
            result@.dirs,
            sections(),
            viewer@,
        ),
{
    let ghost had = views(out@);
    let list = section_cats();
    let ghost all = views(list@);
    assert(had + sections_lines(result@.dirs, all.take(0), viewer@) =~= had);
    for i in 0..list.len()
        invariant
            result@.fits(),
            all == views(list@),
            all == sections(),
            views(out@) == had + sections_lines(result@.dirs, all.take(i as int), viewer@),
    {
        proof {
            assert(all.take(i + 1).drop_last() =~= all.take(i as int));
            lemma_section_cats(i as int);
            lemma_categories_size(result@.dirs, sections()[i as int].cats);
        }
        push_section(result, &list[i], viewer, out);
        assert(views(out@) =~= had + sections_lines(result@.dirs, all.take(i + 1), viewer@));
    }
    assert(all.take(all.len() as int) =~= all);
}

// ---------------------------------------------------------------------------
// Unexplored directories
// ---------------------------------------------------------------------------

pub open spec fn unknown_line(dir: LargeDirView, viewer: ViewerView) -> LineView {
    let line = seq![
        plain("    "@),
        styled(size_text(dir.size as nat), Style::BoldGreen),
        plain("  "@),
        styled(viewer.path(dir.path), Style::Cyan),
        plain("  "@),
        styled(last_used(viewer.age(dir.last_modified)), Style::Dimmed),
    ];
    if viewer.is_stale(dir.last_modified) {
        line + seq![plain("  "@), styled("[stale]"@, Style::Red)]
    } else {
        line
    }
}

/// The name under which a subdirectory is shown.
pub open spec fn child_name(child: PathView) -> Seq<char> {
    match path_file_name(child) {
        Some(part) => match unicode(part) {
            Some(text) => text,
            None => "?"@,
        },
        None => "?"@,
    }
}

pub open spec fn child_line(child: (PathView, u64)) -> LineView {
    seq![
        plain("      "@),
        styled(size_column(child.1), Style::Green),
        plain("  "@),
        styled(child_name(child.0), Style::Dimmed),
    ]
}

pub open spec fn unknown_dir_lines(dir: LargeDirView, viewer: ViewerView) -> Seq<LineView> {
    seq![unknown_line(dir, viewer)] + Seq::new(
        dir.notable_children.len(),
        |i: int| child_line(dir.notable_children[i]),
    )
}

pub open spec fn unknown_dirs_lines(dirs: Seq<LargeDirView>, viewer: ViewerView) -> Seq<LineView>
    decreases dirs.len(),
{
    if dirs.len() == 0 {
        Seq::empty()
    } else {
        unknown_dirs_lines(dirs.drop_last(), viewer) + unknown_dir_lines(dirs.last(), viewer)
    }
}

pub open spec fn unknown_lines(dirs: Seq<LargeDirView>, viewer: ViewerView) -> Seq<LineView> {
    if dirs.len() == 0 {
        Seq::empty()
    } else {
        seq![
            LineView::empty(),
            heading_line(
                "UNEXPLORED LARGE DIRECTORIES"@,
                "  (not matched by any known pattern)"@,
            ),
        ] + unknown_dirs_lines(dirs, viewer)
    }
}

/// The name under which a subdirectory is shown.
pub fn name_of_child(child: &FsPath) -> (r: String)
    ensures
        r@ == child_name(child@),
{
    match child.file_name() {
        Some(part) => match part.to_str() {
            Some(text) => text,
            None => "?".to_owned(),
        },
        None => "?".to_owned(),
    }
}

/// When a directory was last used.
pub open spec fn last_used(age: Seq<char>) -> Seq<char> {
    "(last used: "@ + age + ")"@
}

pub fn last_used_text(age: &str) -> (r: String)
    ensures
        r@ == last_used(age@),
{
    let mut out = "(last used: ".to_owned();
    out.append(age);
    out.append(")");
    out
}

fn unknown_heading(dir: &LargeDir, viewer: &Viewer) -> (r: Line)
    ensures
        r@ == unknown_line(dir@, viewer@),
{
    let mut spans: Vec<Span> = vec![
        Span::plain("    "),
        Span::new(fmt_size(dir.size).as_str(), Style::BoldGreen),
        Span::plain("  "),
        Span::new(viewer.path(&dir.path).as_str(), Style::Cyan),
        Span::plain("  "),
        Span::new(last_used_text(viewer.age(dir.last_modified).as_str()).as_str(), Style::Dimmed),
    ];
    if viewer.is_stale(dir.last_modified) {
        spans.push(Span::plain("  "));
        spans.push(Span::new("[stale]", Style::Red));
    }
    assert(views(spans@) =~= unknown_line(dir@, viewer@));
    Line::new(spans)
}

fn push_unknown_dir(dir: &LargeDir, viewer: &Viewer, out: &mut Vec<Line>)
    ensures
        views(final(out)@) == views(old(out)@) + unknown_dir_lines(dir@, viewer@),
{
    let ghost had = views(out@);
    out.push(unknown_heading(dir, viewer));
    let ghost want = unknown_dir_lines(dir@, viewer@);
    let ghost children = views(dir.notable_children@);
    for i in 0..dir.notable_children.len()
        invariant
            children == views(dir.notable_children@),
            children == dir@.notable_children,
            want == unknown_dir_lines(dir@, viewer@),
            views(out@) =~= had + want.take(i + 1),
    {
        let child = &dir.notable_children[i];
        assert(children[i as int] == (child.0@, child.1));
        let spans: Vec<Span> = vec![
            Span::plain("      "),
            Span::new(size_cell(child.1).as_str(), Style::Green),
            Span::plain("  "),
            Span::new(name_of_child(&child.0).as_str(), Style::Dimmed),
        ];
        assert(views(spans@) =~= child_line(children[i as int]));
        out.push(Line::new(spans));
    }
    assert(want.take(want.len() as int) =~= want);
}

fn print_unknown_dirs(dirs: &Vec<LargeDir>, viewer: &Viewer, out: &mut Vec<Line>)
    ensures
        views(final(out)@) == views(old(out)@) + unknown_lines(views(dirs@), viewer@),
{
    let ghost had = views(out@);
    if dirs.len() == 0 {
        assert(had + Seq::<LineView>::empty() =~= had);
        return;
    }
    out.push(Line::blank());
    out.push(
        heading("UNEXPLORED LARGE DIRECTORIES", "  (not matched by any known pattern)"),
    );
    let ghost head = views(out@);
    let ghost all = views(dirs@);
    assert(head + unknown_dirs_lines(all.take(0), viewer@) =~= head);
    for i in 0..dirs.len()
        invariant
            all == views(dirs@),
            views(out@) == head + unknown_dirs_lines(all.take(i as int), viewer@),
    {
        assert(all.take(i + 1).drop_last() =~= all.take(i as int));
        push_unknown_dir(&dirs[i], viewer, out);
        assert(views(out@) =~= head + unknown_dirs_lines(all.take(i + 1), viewer@));
    }
    assert(all.take(all.len() as int) =~= all);
    assert(views(out@) =~= had + unknown_lines(all, viewer@));
}

// ---------------------------------------------------------------------------
// Files
// ---------------------------------------------------------------------------

/// The first `limit` files, and how many more there are.
pub open spec fn file_lines(
    files: Seq<FoundFileView>,
    limit: nat,
    viewer: ViewerView,
) -> Seq<LineView> {
    let shown = if files.len() > limit {
        limit
    } else {
        files.len()
    };
    let first = Seq::new(
        shown,
        |i: int|
            entry_line(files[i].size, files[i].path, files[i].modified, Style::Yellow, viewer),
    );
    if files.len() > limit {
        first.push(
            single(
                "      ... and "@ + decimal((files.len() - limit) as nat) + " more"@,
                Style::Plain,
            ),
        )
    } else {
        first
    }
}

fn print_files(files: &Vec<FoundFile>, limit: usize, viewer: &Viewer, out: &mut Vec<Line>)
    ensures
        views(final(out)@) == views(old(out)@) + file_lines(views(files@), limit as nat, viewer@),
{
    let ghost had = views(out@);
    let ghost all = views(files@);
    let ghost want = file_lines(all, limit as nat, viewer@);
    let mut i: usize = 0;
    while i < files.len() && i < limit
        invariant
            i <= files.len(),
            i <= limit,
            all == views(files@),
            want == file_lines(all, limit as nat, viewer@),
            views(out@) =~= had + want.take(i as int),
        decreases files.len() - i,
    {
        let f = &files[i];
        assert(all[i as int] == f@);
        out.push(entry(f.size, &f.path, f.modified, Style::Yellow, viewer));
        i = i + 1;
    }
    if files.len() > limit {
        let mut more = "      ... and ".to_owned();
        more.append(number((files.len() - limit) as u128).as_str());
        more.append(" more");
        out.push(single_line(more.as_str(), Style::Plain));
    }
    assert(views(out@) =~= had + want);
}

/// A list of files under a heading; nothing where there are none.
pub open spec fn listing_lines(
    files: Seq<FoundFileView>,
    title: Seq<char>,
    remark: Seq<char>,
    limit: nat,
    viewer: ViewerView,
) -> Seq<LineView> {
    if files.len() == 0 {
        Seq::empty()
    } else {
        seq![LineView::empty(), heading_line(title, remark)] + file_lines(files, limit, viewer)
    }
}

fn push_listing(
    files: &Vec<FoundFile>,
    title: &str,
    remark: &str,
    limit: usize,
    viewer: &Viewer,
    out: &mut Vec<Line>,
)
    ensures
        views(final(out)@) == views(old(out)@) + listing_lines(
            views(files@),
            title@,
            remark@,
            limit as nat,
            viewer@,
        ),
{
    let ghost had = views(out@);
    if files.len() == 0 {
        assert(had + Seq::<LineView>::empty() =~= had);
        return;
    }
    out.push(Line::blank());
    out.push(heading(title, remark));
    print_files(files, limit, viewer, out);
    assert(views(out@) =~= had + listing_lines(
        views(files@),
        title@,
        remark@,
        limit as nat,
        viewer@,
    ));
}

// ---------------------------------------------------------------------------
// Footer
// ---------------------------------------------------------------------------

pub open spec fn total_line(total: nat) -> LineView {
    seq![
        plain("  "@),
        styled("TOTAL RECLAIMABLE (dirs + disk images):"@, Style::Bold),
        plain("  "@),
        styled(size_text(total), Style::BoldRed),
    ]
}

pub open spec fn error_lines(errors: nat) -> Seq<LineView> {
    if errors > 0 {
        seq![
            seq![
                plain("  "@),
                styled("note:"@, Style::Yellow),
                plain(
                    " "@ + decimal(errors) + " directories skipped due to permission errors"@,
                ),
            ],
        ]
    } else {
        Seq::empty()
    }
}

/// A file that only a command of the system gives back, with the command.
pub open spec fn reserved_line(file: ReservedFileView, viewer: ViewerView) -> LineView {
    seq![
        plain("  "@),
        styled("reserved:"@, Style::Yellow),
        plain(
            " "@ + viewer.path(file.path) + "  "@ + size_text(file.size as nat) + " -- "@
                + file.hint,
        ),
    ]
}

pub open spec fn reserved_lines(files: Seq<ReservedFileView>, viewer: ViewerView) -> Seq<LineView> {
    Seq::new(files.len(), |i: int| reserved_line(files[i], viewer))
}

pub open spec fn hint_lines(hints: Seq<Seq<char>>) -> Seq<LineView> {
    Seq::new(hints.len(), |i: int| single("  "@ + hints[i], Style::Dimmed))
}

pub open spec fn usage_lines() -> Seq<LineView> {
    seq![
        LineView::empty(),
        single("  Run with --delete to choose what to remove."@, Style::Dimmed),
        single(
            "  Run with --delete-targets to nuke all Rust target/ dirs immediately."@,
            Style::Dimmed,
        ),
    ]
}

pub open spec fn footer_lines(
    result: ScanResultView,
    viewer: ViewerView,
    hints: Seq<Seq<char>>,
) -> Seq<LineView> {
    seq![
        LineView::empty(),
        single(rule_text(), Style::Dimmed),
        total_line(result.reclaimable()),
    ] + error_lines(result.permission_errors) + reserved_lines(result.reserved_files, viewer)
        + usage_lines() + hint_lines(hints) + seq![LineView::empty()]
}

fn push_reserved(files: &Vec<ReservedFile>, viewer: &Viewer, out: &mut Vec<Line>)
    ensures
        views(final(out)@) == views(old(out)@) + reserved_lines(views(files@), viewer@),
{
    let ghost had = views(out@);
    let ghost all = views(files@);
    let ghost want = reserved_lines(all, viewer@);
    for i in 0..files.len()
        invariant
            all == views(files@),
            want == reserved_lines(all, viewer@),
            views(out@) =~= had + want.take(i as int),
    {
        let f = &files[i];
        assert(all[i as int] == f@);
        let mut text = " ".to_owned();
        text.append(viewer.path(&f.path).as_str());
        text.append("  ");
        text.append(fmt_size(f.size).as_str());
        text.append(" -- ");
        text.append(f.hint);
        let spans: Vec<Span> = vec![
            Span::plain("  "),
            Span::new("reserved:", Style::Yellow),
            Span::plain(text.as_str()),
        ];
        assert(views(spans@) =~= reserved_line(f@, viewer@));
        out.push(Line::new(spans));
    }
    assert(want.take(want.len() as int) =~= want);
}

fn push_hints(hints: &Vec<&'static str>, out: &mut Vec<Line>)
    ensures
        views(final(out)@) == views(old(out)@) + hint_lines(views(hints@)),
{
    let ghost had = views(out@);
    let ghost all = views(hints@);
    let ghost want = hint_lines(all);
    for i in 0..hints.len()
        invariant
            all == views(hints@),
            want == hint_lines(all),
            views(out@) =~= had + want.take(i as int),
    {
        let mut text = "  ".to_owned();
        text.append(hints[i]);
        out.push(single_line(text.as_str(), Style::Dimmed));
    }
    assert(want.take(want.len() as int) =~= want);
}

fn push_footer(
    result: &ScanResult,
    viewer: &Viewer,
    hints: &Vec<&'static str>,
    out: &mut Vec<Line>,
)
    requires
        result@.fits(),
    ensures
        views(final(out)@) == views(old(out)@) + footer_lines(result@, viewer@, views(hints@)),
{
    let ghost had = views(out@);
    out.push(Line::blank());
    out.push(single_line(rule().as_str(), Style::Dimmed));
    let spans: Vec<Span> = vec![
        Span::plain("  "),
        Span::new("TOTAL RECLAIMABLE (dirs + disk images):", Style::Bold),
        Span::plain("  "),
        Span::new(fmt_size(result.grand_total()).as_str(), Style::BoldRed),
    ];
    assert(views(spans@) =~= total_line(result@.reclaimable()));
    out.push(Line::new(spans));
    let ghost summed = views(out@);
    if result.permission_errors > 0 {
        let mut text = " ".to_owned();
        text.append(number(result.permission_errors as u128).as_str());
        text.append(" directories skipped due to permission errors");
        let spans: Vec<Span> = vec![
            Span::plain("  "),
            Span::new("note:", Style::Yellow),
            Span::plain(text.as_str()),
        ];
        assert(views(spans@) =~= error_lines(result@.permission_errors)[0]);
        out.push(Line::new(spans));
    }
    assert(views(out@) =~= summed + error_lines(result@.permission_errors));
    push_reserved(&result.reserved_files, viewer, out);
    let ghost noted = views(out@);
    out.push(Line::blank());
    out.push(single_line("  Run with --delete to choose what to remove.", Style::Dimmed));
    out.push(
        single_line(
            "  Run with --delete-targets to nuke all Rust target/ dirs immediately.",
            Style::Dimmed,
        ),
    );
    assert(views(out@) =~= noted + usage_lines());
    push_hints(hints, out);
    out.push(Line::blank());
    assert(views(out@) =~= had + footer_lines(result@, viewer@, views(hints@)));
}

// ---------------------------------------------------------------------------
// The report
// ---------------------------------------------------------------------------

pub open spec fn head_lines() -> Seq<LineView> {
    seq![
        LineView::empty(),
        single("diskscout -- storage cleanup report"@, Style::Bold),
        single(rule_text(), Style::Dimmed),
    ]
}

pub open spec fn report_lines(
    result: ScanResultView,
    viewer: ViewerView,
    hints: Seq<Seq<char>>,
) -> Seq<LineView> {
    head_lines() + sections_lines(result.dirs, sections(), viewer) + unknown_lines(
        result.large_unknown_dirs,
        viewer,
    ) + listing_lines(
        result.large_files,
        "LARGE FILES"@,
        "  (review before deleting)"@,
        15,
        viewer,
    ) + listing_lines(
        result.old_files,
        "OLD UNUSED FILES"@,
        "  (not modified in 6+ months)"@,
        15,
        viewer,
    ) + listing_lines(
        result.disk_images,
        "DISK IMAGES (.dmg / .iso / .pkg)"@,
        "  (forgotten installers)"@,
        20,
        viewer,
    ) + footer_lines(result, viewer, hints)
}

/// The lines of the report on the terminal, in which long lists are cut short.
pub fn print_report(result: &ScanResult, viewer: &Viewer, hints: &Vec<&'static str>) -> (r: Vec<
    Line,
>)
    requires
        result@.fits(),
    ensures
        views(r@) == report_lines(result@, viewer@, views(hints@)),
{
    let mut out: Vec<Line> = Vec::new();
    out.push(Line::blank());
    out.push(single_line("diskscout -- storage cleanup report", Style::Bold));
    out.push(single_line(rule().as_str(), Style::Dimmed));
    assert(views(out@) =~= head_lines());
    push_sections(result, viewer, &mut out);
    print_unknown_dirs(&result.large_unknown_dirs, viewer, &mut out);
    push_listing(
        &result.large_files,
        "LARGE FILES",
        "  (review before deleting)",
        15,
        viewer,
        &mut out,
    );
    push_listing(
        &result.old_files,
        "OLD UNUSED FILES",
        "  (not modified in 6+ months)",
        15,
        viewer,
        &mut out,
    );
    push_listing(
        &result.disk_images,
        "DISK IMAGES (.dmg / .iso / .pkg)",
        "  (forgotten installers)",
        20,
        viewer,
        &mut out,
    );
    push_footer(result, viewer, hints, &mut out);
    out
}

/// A section whose categories are all empty is not shown.
pub proof fn an_empty_section_is_not_shown(
    dirs: Seq<FoundDirView>,
    section: SectionView,
    viewer: ViewerView,
)
    ensures
        categories_size(dirs, section.cats) == 0 <==> section_lines(dirs, section, viewer).len()
            == 0,
{
}

// ---------------------------------------------------------------------------
// Laws
// ---------------------------------------------------------------------------

/// Something is stale from 180 days after it was last touched.
pub proof fn stale_means_half_a_year(viewer: ViewerView, modified: Timestamp)
    ensures
        viewer.is_stale(modified) <==> viewer.now.nanos - modified.nanos
            >= 180 * 86_400 * 1_000_000_000,
        viewer.age(modified) == age_text(modified, viewer.now),
{
}

/// A directory or file is shown with its size in a column of ten, its path and its
/// age.
pub open spec fn shown_as(
    size: u64,
    path: PathView,
    modified: Timestamp,
    age_style: Style,
    viewer: ViewerView,
) -> LineView {
    seq![
        plain("      "@),
        styled(pad_left(size_text(size as nat), 10), Style::Green),
        plain("  "@),
        styled(path_text(path, viewer.home, viewer.sep), Style::Dimmed),
        plain("  "@),
        styled("("@ + age_text(modified, viewer.now) + ")"@, age_style),
    ]
}

/// A category shows its total and its eight largest directories, and says how many
/// more there are; one without directories is not shown.
pub proof fn a_category_shows_eight_directories(
    dirs: Seq<FoundDirView>,
    cat: Category,
    viewer: ViewerView,
    i: int,
)
    ensures
        ({
            let ranked = ranked_dirs(dirs, cat);
            let lines = category_lines(dirs, cat, viewer);
            let shown: int = if ranked.len() > 8 {
                9
            } else {
                ranked.len() as int
            };
            &&& ranked.len() == 0 ==> lines.len() == 0
            &&& ranked.len() > 0 ==> lines.len() == 1 + shown && lines[0].subrange(0, 4) == seq![
                plain("    "@),
                styled(pad_right(cat.label_text(), 28), Style::Cyan),
                plain(" "@),
                styled(size_text(category_size(dirs, cat)), Style::Bold),
            ]
            &&& ranked.len() > 0 && cat.is_regenerable() ==> lines[0].len() == 5 && lines[0][4]
                == styled(" (safe to delete)"@, Style::Dimmed)
            &&& ranked.len() > 0 && !cat.is_regenerable() ==> lines[0].len() == 4
            &&& 0 <= i < ranked.len() && i < 8 ==> lines[1 + i] == shown_as(
                ranked[i].size,
                ranked[i].path,
                ranked[i].last_modified,
                Style::Dimmed,
                viewer,
            )
            &&& ranked.len() > 8 ==> lines[9] == seq![
                plain("      "@ + decimal((ranked.len() - 8) as nat) + " more..."@),
            ]
        }),
{
    let ranked = ranked_dirs(dirs, cat);
    let lines = category_lines(dirs, cat, viewer);
    if ranked.len() > 0 {
        assert(lines[0] == category_head(cat, category_size(dirs, cat)));
        assert(lines[0].subrange(0, 4) =~= seq![
            plain("    "@),
            styled(pad_right(cat.label_text(), 28), Style::Cyan),
            plain(" "@),
            styled(size_text(category_size(dirs, cat)), Style::Bold),
        ]);
        if 0 <= i < ranked.len() && i < 8 {
            assert(lines[1 + i] == dir_lines(ranked, viewer)[i]);
        }
        if ranked.len() > 8 {
            assert(lines[9] == more_dirs(ranked.len())[0]);
        }
    }
}

/// A list of files shows as many as its limit, and says how many more there are.
pub proof fn a_list_is_cut_short(
    files: Seq<FoundFileView>,
    title: Seq<char>,
    remark: Seq<char>,
    limit: nat,
    viewer: ViewerView,
    i: int,
)
    ensures
        ({
            let lines = listing_lines(files, title, remark, limit, viewer);
            &&& files.len() == 0 ==> lines.len() == 0
            &&& files.len() > 0 ==> {
                &&& lines[0].len() == 0
                &&& lines[1] == seq![
                    plain("  "@),
                    styled(title, Style::BoldYellow),
                    plain(remark),
                ]
                &&& files.len() <= limit ==> lines.len() == 2 + files.len()
                &&& files.len() > limit ==> {
                    &&& lines.len() == 3 + limit
                    &&& lines.last() == seq![
                        plain("      ... and "@ + decimal((files.len() - limit) as nat) + " more"@),
                    ]
                }
                &&& 0 <= i < files.len() && i < limit ==> lines[2 + i] == shown_as(
                    files[i].size,
                    files[i].path,
                    files[i].modified,
                    Style::Yellow,
                    viewer,
                )
            }
        }),
{
    let lines = listing_lines(files, title, remark, limit, viewer);
    if files.len() > 0 && 0 <= i < files.len() && i < limit {
        assert(lines[2 + i] == file_lines(files, limit, viewer)[i]);
    }
}

/// An unexplored directory is shown with its size, its path and when it was last
/// used, is marked where it is stale, and is followed by its largest
/// subdirectories.
pub proof fn an_unexplored_directory_shows_what_is_in_it(
    dir: LargeDirView,
    viewer: ViewerView,
    i: int,
)
    ensures
        ({
            let lines = unknown_dir_lines(dir, viewer);
            let line = seq![
                plain("    "@),
                styled(size_text(dir.size as nat), Style::BoldGreen),
                plain("  "@),
                styled(path_text(dir.path, viewer.home, viewer.sep), Style::Cyan),
                plain("  "@),
                styled(
                    "(last used: "@ + age_text(dir.last_modified, viewer.now) + ")"@,
                    Style::Dimmed,
                ),
            ];
            let stale = viewer.now.nanos - dir.last_modified.nanos >= 180 * 86_400 * 1_000_000_000;
            &&& lines.len() == 1 + dir.notable_children.len()
            &&& !stale ==> lines[0] == line
            &&& stale ==> lines[0] == line + seq![plain("  "@), styled("[stale]"@, Style::Red)]
            &&& 0 <= i < dir.notable_children.len() ==> lines[1 + i] == seq![
                plain("      "@),
                styled(pad_left(size_text(dir.notable_children[i].1 as nat), 10), Style::Green),
                plain("  "@),
                styled(child_name(dir.notable_children[i].0), Style::Dimmed),
            ]
        }),
{
    let lines = unknown_dir_lines(dir, viewer);
    stale_means_half_a_year(viewer, dir.last_modified);
    if 0 <= i < dir.notable_children.len() {
        assert(lines[1 + i] == child_line(dir.notable_children[i]));
    }
}

/// A subdirectory goes by its name, and by a question mark where that is no text.
pub proof fn a_subdirectory_goes_by_its_name(child: PathView)
    ensures
        path_file_name(child) matches Some(part) ==> (unicode(part) matches Some(text)
            ==> child_name(child) == text),
        path_file_name(child) is None || unicode(path_file_name(child)->0) is None ==> child_name(
            child,
        ) == "?"@,
{
}

proof fn lemma_unknown_dir(dirs: Seq<LargeDirView>, viewer: ViewerView, i: int, line: LineView)
    requires
        0 <= i < dirs.len(),
        unknown_dir_lines(dirs[i], viewer).contains(line),
    ensures
        unknown_dirs_lines(dirs, viewer).contains(line),
    decreases dirs.len(),
{
    let front = unknown_dirs_lines(dirs.drop_last(), viewer);
    let own = unknown_dir_lines(dirs.last(), viewer);
    if i < dirs.len() - 1 {
        lemma_unknown_dir(dirs.drop_last(), viewer, i, line);
    }
    lemma_line_in(front, own, line);
}

proof fn lemma_line_in(a: Seq<LineView>, b: Seq<LineView>, line: LineView)
    ensures
        (a + b).contains(line) <==> a.contains(line) || b.contains(line),
{
    if a.contains(line) {
        let k = choose|k: int| 0 <= k < a.len() && a[k] == line;
        assert((a + b)[k] == line);
    }
    if b.contains(line) {
        let k = choose|k: int| 0 <= k < b.len() && b[k] == line;
        assert((a + b)[a.len() + k] == line);
    }
    if (a + b).contains(line) {
        let k = choose|k: int| 0 <= k < (a + b).len() && (a + b)[k] == line;
        if k < a.len() {
            assert(a[k] == line);
        } else {
            assert(b[k - a.len()] == line);
        }
    }
}

proof fn lemma_category_shown(
    dirs: Seq<FoundDirView>,
    cats: Seq<Category>,
    viewer: ViewerView,
    cat: Category,
    line: LineView,
)
    requires
        cats.contains(cat),
        category_lines(dirs, cat, viewer).contains(line),
    ensures
        cats_lines(dirs, cats, viewer).contains(line),
    decreases cats.len(),
{
    let front = cats.drop_last();
    if cats.last() != cat {
        let k = choose|k: int| 0 <= k < cats.len() && cats[k] == cat;
        assert(front[k] == cat);
        lemma_category_shown(dirs, front, viewer, cat, line);
    }
    lemma_line_in(
        cats_lines(dirs, front, viewer),
        category_lines(dirs, cats.last(), viewer),
        line,
    );
}

proof fn lemma_section_shown(
    dirs: Seq<FoundDirView>,
    all: Seq<SectionView>,
    viewer: ViewerView,
    s: int,
    line: LineView,
)
    requires
        0 <= s < all.len(),
        section_lines(dirs, all[s], viewer).contains(line),
    ensures
        sections_lines(dirs, all, viewer).contains(line),
    decreases all.len(),
{
    if s < all.len() - 1 {
        lemma_section_shown(dirs, all.drop_last(), viewer, s, line);
    }
    lemma_line_in(
        sections_lines(dirs, all.drop_last(), viewer),
        section_lines(dirs, all.last(), viewer),
        line,
    );
}

/// A section that holds something shows its title with its total, and then
/// everything that its categories show.
pub proof fn the_report_shows_every_section(
    result: ScanResultView,
    viewer: ViewerView,
    hints: Seq<Seq<char>>,
    s: int,
    cat: Category,
    i: int,
)
    requires
        0 <= s < sections().len(),
        categories_size(result.dirs, sections()[s].cats) > 0,
        sections()[s].cats.contains(cat),
        0 <= i < category_lines(result.dirs, cat, viewer).len(),
    ensures
        report_lines(result, viewer, hints).contains(
            seq![
                plain("  "@),
                styled(sections()[s].title, Style::BoldYellow),
                plain("  "@),
                styled(
                    size_text(categories_size(result.dirs, sections()[s].cats)),
                    Style::Bold,
                ),
            ],
        ),
        report_lines(result, viewer, hints).contains(category_lines(result.dirs, cat, viewer)[i]),
{
    let section = sections()[s];
    let own = section_lines(result.dirs, section, viewer);
    let head = section_head(section.title, categories_size(result.dirs, section.cats));
    let line = category_lines(result.dirs, cat, viewer)[i];
    assert(own[1] == head);
    lemma_section_shown(result.dirs, sections(), viewer, s, head);
    lemma_category_shown(result.dirs, section.cats, viewer, cat, line);
    lemma_line_in(
        seq![LineView::empty(), head],
        cats_lines(result.dirs, section.cats, viewer),
        line,
    );
    lemma_section_shown(result.dirs, sections(), viewer, s, line);
    lemma_in_report(result, viewer, hints, head);
    lemma_in_report(result, viewer, hints, line);
}

proof fn lemma_in_report(
    result: ScanResultView,
    viewer: ViewerView,
    hints: Seq<Seq<char>>,
    line: LineView,
)
    requires
        head_lines().contains(line) || sections_lines(result.dirs, sections(), viewer).contains(
            line,
        ) || unknown_lines(result.large_unknown_dirs, viewer).contains(line) || footer_lines(
            result,
            viewer,
            hints,
        ).contains(line),
    ensures
        report_lines(result, viewer, hints).contains(line),
{
    let a = head_lines();
    let b = sections_lines(result.dirs, sections(), viewer);
    let c = unknown_lines(result.large_unknown_dirs, viewer);
    let d = listing_lines(
        result.large_files,
        "LARGE FILES"@,
        "  (review before deleting)"@,
        15,
        viewer,
    );
    let e = listing_lines(
        result.old_files,
        "OLD UNUSED FILES"@,
        "  (not modified in 6+ months)"@,
        15,
        viewer,
    );
    let f = listing_lines(
        result.disk_images,
        "DISK IMAGES (.dmg / .iso / .pkg)"@,
        "  (forgotten installers)"@,
        20,
        viewer,
    );
    let g = footer_lines(result, viewer, hints);
    lemma_line_in(a, b, line);
    lemma_line_in(a + b, c, line);
    lemma_line_in(a + b + c, d, line);
    lemma_line_in(a + b + c + d, e, line);
    lemma_line_in(a + b + c + d + e, f, line);
    lemma_line_in(a + b + c + d + e + f, g, line);
}

/// Every unexplored directory is shown with what is in it, under their heading.
pub proof fn the_report_shows_every_unexplored_directory(
    result: ScanResultView,
    viewer: ViewerView,
    hints: Seq<Seq<char>>,
    i: int,
    k: int,
)
    requires
        0 <= i < result.large_unknown_dirs.len(),
        0 <= k < unknown_dir_lines(result.large_unknown_dirs[i], viewer).len(),
    ensures
        report_lines(result, viewer, hints).contains(
            seq![
                plain("  "@),
                styled("UNEXPLORED LARGE DIRECTORIES"@, Style::BoldYellow),
                plain("  (not matched by any known pattern)"@),
            ],
        ),
        report_lines(result, viewer, hints).contains(
            unknown_dir_lines(result.large_unknown_dirs[i], viewer)[k],
        ),
{
    let dirs = result.large_unknown_dirs;
    let line = unknown_dir_lines(dirs[i], viewer)[k];
    let heading = heading_line(
        "UNEXPLORED LARGE DIRECTORIES"@,
        "  (not matched by any known pattern)"@,
    );
    lemma_unknown_dir(dirs, viewer, i, line);
    lemma_line_in(
        seq![LineView::empty(), heading],
        unknown_dirs_lines(dirs, viewer),
        line,
    );
    assert(unknown_lines(dirs, viewer)[1] == heading);
    lemma_in_report(result, viewer, hints, heading);
    lemma_in_report(result, viewer, hints, line);
}

/// Where the three lists of files stand in the report: large ones, old ones and
/// disk images, cut short after 15, 15 and 20 files.
pub proof fn the_report_lists_large_and_old_files_and_images(
    result: ScanResultView,
    viewer: ViewerView,
    hints: Seq<Seq<char>>,
)
    ensures
        ({
            let all = report_lines(result, viewer, hints);
            let large = listing_lines(
                result.large_files,
                "LARGE FILES"@,
                "  (review before deleting)"@,
                15,
                viewer,
            );
            let stale = listing_lines(
                result.old_files,
                "OLD UNUSED FILES"@,
                "  (not modified in 6+ months)"@,
                15,
                viewer,
            );
            let images = listing_lines(
                result.disk_images,
                "DISK IMAGES (.dmg / .iso / .pkg)"@,
                "  (forgotten installers)"@,
                20,
                viewer,
            );
            let a = 3int + sections_lines(result.dirs, sections(), viewer).len() + unknown_lines(
                result.large_unknown_dirs,
                viewer,
            ).len();
            let b = a + large.len();
            let c = b + stale.len();
            let d = c + images.len();
            &&& a <= b <= c <= d <= all.len()
            &&& all.subrange(a, b) == large
            &&& all.subrange(b, c) == stale
            &&& all.subrange(c, d) == images
        }),
{
    let all = report_lines(result, viewer, hints);
    let large = listing_lines(
        result.large_files,
        "LARGE FILES"@,
        "  (review before deleting)"@,
        15,
        viewer,
    );
    let stale = listing_lines(
        result.old_files,
        "OLD UNUSED FILES"@,
        "  (not modified in 6+ months)"@,
        15,
        viewer,
    );
    let images = listing_lines(
        result.disk_images,
        "DISK IMAGES (.dmg / .iso / .pkg)"@,
        "  (forgotten installers)"@,
        20,
        viewer,
    );
    let a = 3int + sections_lines(result.dirs, sections(), viewer).len() + unknown_lines(
        result.large_unknown_dirs,
        viewer,
    ).len();
    let b = a + large.len();
    let c = b + stale.len();
    let d = c + images.len();
    assert(all.subrange(a, b) =~= large);
    assert(all.subrange(b, c) =~= stale);
    assert(all.subrange(c, d) =~= images);
}

/// The report opens with its title between an empty line and a rule of sixty, and
/// closes with the total under a like rule, what could not be read, the files that
/// are reserved, how to delete, and the hints.
pub proof fn the_report_opens_and_closes(
    result: ScanResultView,
    viewer: ViewerView,
    hints: Seq<Seq<char>>,
    i: int,
)
    ensures
        ({
            let all = report_lines(result, viewer, hints);
            let e: int = if result.permission_errors > 0 {
                1
            } else {
                0
            };
            let r = result.reserved_files.len() as int;
            let foot = all.len() - (7 + e + r + hints.len());
            let rule = all[2][0].text;
            &&& foot >= 3
            &&& all[0].len() == 0
            &&& all[1] == seq![styled("diskscout -- storage cleanup report"@, Style::Bold)]
            &&& rule.len() == 60
            &&& forall|k: int| 0 <= k < 60 ==> #[trigger] rule[k] == '─'
            &&& all[2] == seq![styled(rule, Style::Dimmed)]
            &&& all[foot].len() == 0
            &&& all[foot + 1] == seq![styled(rule, Style::Dimmed)]
            &&& all[foot + 2] == seq![
                plain("  "@),
                styled("TOTAL RECLAIMABLE (dirs + disk images):"@, Style::Bold),
                plain("  "@),
                styled(size_text(result.reclaimable()), Style::BoldRed),
            ]
            &&& e == 1 ==> all[foot + 3] == seq![
                plain("  "@),
                styled("note:"@, Style::Yellow),
                plain(
                    " "@ + decimal(result.permission_errors)
                        + " directories skipped due to permission errors"@,
                ),
            ]
            &&& 0 <= i < r ==> all[foot + 3 + e + i] == seq![
                plain("  "@),
                styled("reserved:"@, Style::Yellow),
                plain(
                    " "@ + path_text(result.reserved_files[i].path, viewer.home, viewer.sep) + "  "@
                        + size_text(result.reserved_files[i].size as nat) + " -- "@
                        + result.reserved_files[i].hint,
                ),
            ]
            &&& all[foot + 3 + e + r].len() == 0
            &&& all[foot + 4 + e + r] == seq![
                styled("  Run with --delete to choose what to remove."@, Style::Dimmed),
            ]
            &&& all[foot + 5 + e + r] == seq![
                styled(
                    "  Run with --delete-targets to nuke all Rust target/ dirs immediately."@,
                    Style::Dimmed,
                ),
            ]
            &&& 0 <= i < hints.len() ==> all[foot + 6 + e + r + i] == seq![
                styled("  "@ + hints[i], Style::Dimmed),
            ]
            &&& all.last().len() == 0
        }),
{
    let all = report_lines(result, viewer, hints);
    let close = footer_lines(result, viewer, hints);
    let e: int = if result.permission_errors > 0 {
        1
    } else {
        0
    };
    let r = result.reserved_files.len() as int;
    let foot = all.len() - close.len();
    assert(close.len() == 7 + e + r + hints.len());
    assert forall|k: int| 0 <= k < close.len() implies all[foot + k] == #[trigger] close[k] by {}
    assert(all[foot] == close[0] && all[foot + 1] == close[1] && all[foot + 2] == close[2]);
    if e == 1 {
        assert(all[foot + 3] == close[3]);
    }
    if 0 <= i < r {
        assert(close[3 + e + i] == reserved_line(result.reserved_files[i], viewer));
    }
    assert(all[foot + 3 + e + r] == close[3 + e + r]);
    assert(all[foot + 4 + e + r] == close[4 + e + r]);
    assert(all[foot + 5 + e + r] == close[5 + e + r]);
    if 0 <= i < hints.len() {
        assert(close[6 + e + r + i] == hint_lines(hints)[i]);
    }
    assert(all[2] == head_lines()[2]);
}

} // verus!
