//! What a scan turns up.

use vstd::prelude::*;

use crate::category::Category;
use crate::clock::Timestamp;
use crate::order::{in_order, insert_in_order, inserted, lemma_in_order, lemma_ordered_at, Ranked};
use crate::path::{FsPath, PathView};
use crate::text::views;

verus! {

broadcast use crate::text::lemma_views_push;

#[derive(Debug)]
pub struct FoundDir {
    pub path: FsPath,
    pub category: Category,
    pub size: u64,
    pub last_modified: Timestamp,
}

#[verifier::ext_equal]
pub struct FoundDirView {
    pub path: PathView,
    pub category: Category,
    pub size: u64,
    pub last_modified: Timestamp,
}

impl View for FoundDir {
    type V = FoundDirView;

    open spec fn view(&self) -> FoundDirView {
        FoundDirView {
            path: self.path@,
            category: self.category,
            size: self.size,
            last_modified: self.last_modified,
        }
    }
}

#[derive(Debug)]
pub struct FoundFile {
    pub path: FsPath,
    pub size: u64,
    pub modified: Timestamp,
}

#[verifier::ext_equal]
pub struct FoundFileView {
    pub path: PathView,
    pub size: u64,
    pub modified: Timestamp,
}

impl View for FoundFile {
    type V = FoundFileView;

    open spec fn view(&self) -> FoundFileView {
        FoundFileView {
            path: self.path@,
            size: self.size,
            modified: self.modified,
        }
    }
}

/// A large directory not matched by any known category pattern.
#[derive(Debug)]
pub struct LargeDir {
    pub path: FsPath,
    pub size: u64,
    pub last_modified: Timestamp,
    /// Top immediate subdirs by size, so the report can show what's inside.
    pub notable_children: Vec<(FsPath, u64)>,
}

#[verifier::ext_equal]
pub struct LargeDirView {
    pub path: PathView,
    pub size: u64,
    pub last_modified: Timestamp,
    pub notable_children: Seq<(PathView, u64)>,
}

impl View for LargeDir {
    type V = LargeDirView;

    open spec fn view(&self) -> LargeDirView {
        LargeDirView {
            path: self.path@,
            size: self.size,
            last_modified: self.last_modified,
            notable_children: views(self.notable_children@),
        }
    }
}

/// An OS-reserved file that cannot be deleted directly, carried with the
/// command that does reclaim it.
#[derive(Debug)]
pub struct ReservedFile {
    pub path: FsPath,
    pub size: u64,
    pub hint: &'static str,
}

#[verifier::ext_equal]
pub struct ReservedFileView {
    pub path: PathView,
    pub size: u64,
    pub hint: Seq<char>,
}

impl View for ReservedFile {
    type V = ReservedFileView;

    open spec fn view(&self) -> ReservedFileView {
        ReservedFileView {
            path: self.path@,
            size: self.size,
            hint: self.hint@,
        }
    }
}

#[derive(Debug)]
pub struct ScanResult {
    pub dirs: Vec<FoundDir>,
    pub large_files: Vec<FoundFile>,
    pub old_files: Vec<FoundFile>,
    pub disk_images: Vec<FoundFile>,
    pub large_unknown_dirs: Vec<LargeDir>,
    pub reserved_files: Vec<ReservedFile>,
    pub permission_errors: usize,
}

#[verifier::ext_equal]
pub struct ScanResultView {
    pub dirs: Seq<FoundDirView>,
    pub large_files: Seq<FoundFileView>,
    pub old_files: Seq<FoundFileView>,
    pub disk_images: Seq<FoundFileView>,
    pub large_unknown_dirs: Seq<LargeDirView>,
    pub reserved_files: Seq<ReservedFileView>,
    pub permission_errors: nat,
}

impl View for ScanResult {
    type V = ScanResultView;

    open spec fn view(&self) -> ScanResultView {
        ScanResultView {
            dirs: views(self.dirs@),
            large_files: views(self.large_files@),
            old_files: views(self.old_files@),
            disk_images: views(self.disk_images@),
            large_unknown_dirs: views(self.large_unknown_dirs@),
            reserved_files: views(self.reserved_files@),
            permission_errors: self.permission_errors as nat,
        }
    }
}

impl Default for ScanResult {
    fn default() -> (r: Self)
        ensures
            r.dirs@.len() == 0,
            r.large_files@.len() == 0,
            r.old_files@.len() == 0,
            r.disk_images@.len() == 0,
            r.large_unknown_dirs@.len() == 0,
            r.reserved_files@.len() == 0,
            r.permission_errors == 0,
    {
        ScanResult {
            dirs: Vec::new(),
            large_files: Vec::new(),
            old_files: Vec::new(),
            disk_images: Vec::new(),
            large_unknown_dirs: Vec::new(),
            reserved_files: Vec::new(),
            permission_errors: 0,
        }
    }
}

// ---------------------------------------------------------------------------
// Largest first
// ---------------------------------------------------------------------------

impl Ranked for FoundDir {
    open spec fn leq(a: FoundDirView, b: FoundDirView) -> bool {
        a.size >= b.size
    }

    proof fn leq_total(a: FoundDirView, b: FoundDirView) {
    }

    proof fn leq_transitive(a: FoundDirView, b: FoundDirView, c: FoundDirView) {
    }

    fn le(&self, other: &Self) -> (r: bool) {
        self.size >= other.size
    }
}

impl Ranked for FoundFile {
    open spec fn leq(a: FoundFileView, b: FoundFileView) -> bool {
        a.size >= b.size
    }

    proof fn leq_total(a: FoundFileView, b: FoundFileView) {
    }

    proof fn leq_transitive(a: FoundFileView, b: FoundFileView, c: FoundFileView) {
    }

    fn le(&self, other: &Self) -> (r: bool) {
        self.size >= other.size
    }
}

// ---------------------------------------------------------------------------
// By category
// ---------------------------------------------------------------------------

/// The directories of one category, as they come.
pub open spec fn of_category(dirs: Seq<FoundDirView>, cat: Category) -> Seq<FoundDirView>
    decreases dirs.len(),
{
    if dirs.len() == 0 {
        Seq::empty()
    } else {
        let front = of_category(dirs.drop_last(), cat);
        if dirs.last().category == cat {
            front.push(dirs.last())
        } else {
            front
        }
    }
}

/// The directories of one category, the largest first.
pub open spec fn ranked_dirs(dirs: Seq<FoundDirView>, cat: Category) -> Seq<FoundDirView> {
    in_order::<FoundDir>(of_category(dirs, cat))
}

pub open spec fn dirs_size(dirs: Seq<FoundDirView>) -> nat
    decreases dirs.len(),
{
    if dirs.len() == 0 {
        0
    } else {
        dirs_size(dirs.drop_last()) + dirs.last().size as nat
    }
}

pub open spec fn files_size(files: Seq<FoundFileView>) -> nat
    decreases files.len(),
{
    if files.len() == 0 {
        0
    } else {
        files_size(files.drop_last()) + files.last().size as nat
    }
}

/// The bytes in one category.
pub open spec fn category_size(dirs: Seq<FoundDirView>, cat: Category) -> nat {
    dirs_size(of_category(dirs, cat))
}

/// The bytes in all of these categories.
pub open spec fn categories_size(dirs: Seq<FoundDirView>, cats: Seq<Category>) -> nat
    decreases cats.len(),
{
    if cats.len() == 0 {
        0
    } else {
        categories_size(dirs, cats.drop_last()) + category_size(dirs, cats.last())
    }
}

impl ScanResultView {
    /// Everything that could be reclaimed: directories and disk images.
    pub open spec fn reclaimable(self) -> nat {
        dirs_size(self.dirs) + files_size(self.disk_images)
    }

    /// The sum of all sizes is a number that the machine can hold.
    pub open spec fn fits(self) -> bool {
        self.reclaimable() <= u64::MAX
    }
}

proof fn lemma_dirs_size_front(dirs: Seq<FoundDirView>, n: int)
    requires
        0 <= n <= dirs.len(),
    ensures
        dirs_size(dirs.take(n)) <= dirs_size(dirs),
    decreases dirs.len(),
{
    if n < dirs.len() {
        lemma_dirs_size_front(dirs.drop_last(), n);
        assert(dirs.drop_last().take(n) =~= dirs.take(n));
    } else {
        assert(dirs.take(n) =~= dirs);
    }
}

proof fn lemma_files_size_front(files: Seq<FoundFileView>, n: int)
    requires
        0 <= n <= files.len(),
    ensures
        files_size(files.take(n)) <= files_size(files),
    decreases files.len(),
{
    if n < files.len() {
        lemma_files_size_front(files.drop_last(), n);
        assert(files.drop_last().take(n) =~= files.take(n));
    } else {
        assert(files.take(n) =~= files);
    }
}

proof fn lemma_category_size_front(dirs: Seq<FoundDirView>, cat: Category, n: int)
    requires
        0 <= n <= dirs.len(),
    ensures
        category_size(dirs.take(n), cat) <= category_size(dirs, cat),
    decreases dirs.len(),
{
    if n < dirs.len() {
        lemma_category_size_front(dirs.drop_last(), cat, n);
        assert(dirs.drop_last().take(n) =~= dirs.take(n));
        lemma_category_size_push(dirs.drop_last(), dirs.last(), cat);
        assert(dirs.drop_last().push(dirs.last()) =~= dirs);
    } else {
        assert(dirs.take(n) =~= dirs);
    }
}

proof fn lemma_category_size_push(dirs: Seq<FoundDirView>, d: FoundDirView, cat: Category)
    ensures
        category_size(dirs.push(d), cat) == category_size(dirs, cat) + if d.category == cat {
            d.size as nat
        } else {
            0
        },
{
    assert(dirs.push(d).drop_last() =~= dirs);
    let front = of_category(dirs, cat);
    assert(front.push(d).drop_last() =~= front);
}

proof fn lemma_categories_size_push(dirs: Seq<FoundDirView>, d: FoundDirView, cats: Seq<Category>)
    requires
        cats.no_duplicates(),
    ensures
        categories_size(dirs.push(d), cats) == categories_size(dirs, cats) + if cats.contains(
            d.category,
        ) {
            d.size as nat
        } else {
            0
        },
    decreases cats.len(),
{
    if cats.len() > 0 {
        let front = cats.drop_last();
        lemma_categories_size_push(dirs, d, front);
        lemma_category_size_push(dirs, d, cats.last());
        assert(cats =~= front.push(cats.last()));
        if front.contains(d.category) {
            let i = choose|i: int| 0 <= i < front.len() && front[i] == d.category;
            assert(cats[i] == d.category);
            assert(cats.contains(d.category));
            assert(cats.last() != d.category);
        } else if cats.contains(d.category) {
            let i = choose|i: int| 0 <= i < cats.len() && cats[i] == d.category;
            if i < front.len() {
                assert(front[i] == d.category);
            }
        } else {
            assert(cats[cats.len() - 1] != d.category);
        }
    }
}

/// Different categories never count a directory twice, and together all of
/// them count every directory.
pub proof fn lemma_categories_size(dirs: Seq<FoundDirView>, cats: Seq<Category>)
    requires
        cats.no_duplicates(),
    ensures
        categories_size(dirs, cats) <= dirs_size(dirs),
        (forall|c: Category| cats.contains(c)) ==> categories_size(dirs, cats) == dirs_size(dirs),
    decreases dirs.len(),
{
    if dirs.len() == 0 {
        lemma_no_dirs(dirs, cats);
    } else {
        let front = dirs.drop_last();
        lemma_categories_size(front, cats);
        lemma_categories_size_push(front, dirs.last(), cats);
        assert(front.push(dirs.last()) =~= dirs);
    }
}

proof fn lemma_no_dirs(dirs: Seq<FoundDirView>, cats: Seq<Category>)
    requires
        dirs.len() == 0,
    ensures
        categories_size(dirs, cats) == 0,
    decreases cats.len(),
{
    if cats.len() > 0 {
        lemma_no_dirs(dirs, cats.drop_last());
    }
}

/// The first of the categories add up to no more than all of them, and none of
/// them to more than all.
pub proof fn lemma_categories_size_front(dirs: Seq<FoundDirView>, cats: Seq<Category>, n: int)
    requires
        0 <= n <= cats.len(),
    ensures
        categories_size(dirs, cats.take(n)) <= categories_size(dirs, cats),
        n < cats.len() ==> category_size(dirs, cats[n]) <= categories_size(dirs, cats),
    decreases cats.len(),
{
    if n < cats.len() {
        if n < cats.len() - 1 {
            lemma_categories_size_front(dirs, cats.drop_last(), n);
        }
        assert(cats.drop_last().take(n) =~= cats.take(n));
        if n == cats.len() - 1 {
            assert(cats.take(n) =~= cats.drop_last());
        }
    } else {
        assert(cats.take(n) =~= cats);
    }
}

proof fn lemma_inserted_size(s: Seq<FoundDirView>, x: FoundDirView)
    ensures
        dirs_size(inserted::<FoundDir>(s, x)) == dirs_size(s) + x.size,
    decreases s.len(),
{
    if s.len() == 0 || FoundDir::leq(s.last(), x) {
        assert(s.push(x).drop_last() =~= s);
    } else {
        let put = inserted::<FoundDir>(s.drop_last(), x);
        lemma_inserted_size(s.drop_last(), x);
        assert(put.push(s.last()).drop_last() =~= put);
    }
}

/// Listing directories by size does not change what they add up to.
pub proof fn lemma_ranked_size(s: Seq<FoundDirView>)
    ensures
        dirs_size(in_order::<FoundDir>(s)) == dirs_size(s),
    decreases s.len(),
{
    if s.len() > 0 {
        lemma_ranked_size(s.drop_last());
        lemma_inserted_size(in_order::<FoundDir>(s.drop_last()), s.last());
    }
}

impl ScanResult {
    pub fn dirs_by_category(&self, cat: Category) -> (r: Vec<&FoundDir>)
        ensures
            views(r@) == ranked_dirs(self@.dirs, cat),
    {
        let mut out: Vec<&FoundDir> = Vec::new();
        let ghost all = self@.dirs;
        assert(views(out@) =~= ranked_dirs(all.take(0), cat));
        for i in 0..self.dirs.len()
            invariant
                all == views(self.dirs@),
                views(out@) == ranked_dirs(all.take(i as int), cat),
        {
            let d = &self.dirs[i];
            assert(all.take(i + 1).drop_last() =~= all.take(i as int));
            let ghost front = of_category(all.take(i as int), cat);
            assert(front.push(d@).drop_last() =~= front);
            if d.category == cat {
                let ghost had = views(out@);
                insert_in_order(&mut out, d);
                proof {
                    lemma_same_insert(had, d@);
                }
            }
        }
        assert(all.take(all.len() as int) =~= all);
        out
    }

    pub fn category_total(&self, cat: Category) -> (r: u64)
        requires
            category_size(self@.dirs, cat) <= u64::MAX,
        ensures
            r == category_size(self@.dirs, cat),
    {
        let mut sum: u64 = 0;
        let ghost all = self@.dirs;
        for i in 0..self.dirs.len()
            invariant
                all == views(self.dirs@),
                category_size(all, cat) <= u64::MAX,
                sum == category_size(all.take(i as int), cat),
        {
            let d = &self.dirs[i];
            proof {
                assert(all.take(i + 1) =~= all.take(i as int).push(d@));
                lemma_category_size_push(all.take(i as int), d@, cat);
                lemma_category_size_front(all, cat, i + 1);
            }
            if d.category == cat {
                sum = sum + d.size;
            }
        }
        assert(all.take(all.len() as int) =~= all);
        sum
    }

    pub fn grand_total(&self) -> (r: u64)
        requires
            self@.fits(),
        ensures
            r == self@.reclaimable(),
    {
        let mut dir_total: u64 = 0;
        let ghost all = self@.dirs;
        for i in 0..self.dirs.len()
            invariant
                all == views(self.dirs@),
                dirs_size(all) <= u64::MAX,
                dir_total == dirs_size(all.take(i as int)),
        {
            proof {
                assert(all.take(i + 1).drop_last() =~= all.take(i as int));
                lemma_dirs_size_front(all, i + 1);
            }
            dir_total = dir_total + self.dirs[i].size;
        }
        assert(all.take(all.len() as int) =~= all);
        let mut img_total: u64 = 0;
        let ghost images = self@.disk_images;
        for i in 0..self.disk_images.len()
            invariant
                images == views(self.disk_images@),
                files_size(images) <= u64::MAX,
                img_total == files_size(images.take(i as int)),
        {
            proof {
                assert(images.take(i + 1).drop_last() =~= images.take(i as int));
                lemma_files_size_front(images, i + 1);
            }
            img_total = img_total + self.disk_images[i].size;
        }
        assert(images.take(images.len() as int) =~= images);
        dir_total + img_total
    }
}

proof fn lemma_same_insert(s: Seq<FoundDirView>, x: FoundDirView)
    ensures
        inserted::<&FoundDir>(s, x) == inserted::<FoundDir>(s, x),
    decreases s.len(),
{
    if s.len() > 0 {
        lemma_same_insert(s.drop_last(), x);
    }
}

// ---------------------------------------------------------------------------
// Laws
// ---------------------------------------------------------------------------

proof fn lemma_of_category(dirs: Seq<FoundDirView>, cat: Category, d: FoundDirView)
    ensures
        of_category(dirs, cat).to_multiset().count(d) == if d.category == cat {
            dirs.to_multiset().count(d)
        } else {
            0
        },
    decreases dirs.len(),
{
    broadcast use vstd::seq_lib::to_multiset_build;

    if dirs.len() == 0 {
        dirs.to_multiset_ensures();
        of_category(dirs, cat).to_multiset_ensures();
        assert(!dirs.contains(d) && !of_category(dirs, cat).contains(d));
    } else {
        lemma_of_category(dirs.drop_last(), cat, d);
        assert(dirs.drop_last().push(dirs.last()) =~= dirs);
    }
}

/// The directories of a category are those that were found with it, each as often
/// as it was found.
pub proof fn a_category_lists_its_directories(
    dirs: Seq<FoundDirView>,
    cat: Category,
    d: FoundDirView,
)
    ensures
        d.category == cat ==> ranked_dirs(dirs, cat).to_multiset().count(d)
            == dirs.to_multiset().count(d),
        d.category != cat ==> !ranked_dirs(dirs, cat).contains(d),
{
    let own = of_category(dirs, cat);
    lemma_of_category(dirs, cat, d);
    lemma_in_order::<FoundDir>(own);
    own.to_multiset_ensures();
    assert(own.contains(d) <==> own.to_multiset().count(d) > 0);
}

/// Of two directories of a category the larger one is listed first.
pub proof fn the_largest_directory_is_listed_first(
    dirs: Seq<FoundDirView>,
    cat: Category,
    i: int,
    j: int,
)
    requires
        0 <= i < j < ranked_dirs(dirs, cat).len(),
    ensures
        ranked_dirs(dirs, cat)[i].size >= ranked_dirs(dirs, cat)[j].size,
{
    lemma_in_order::<FoundDir>(of_category(dirs, cat));
    lemma_ordered_at::<FoundDir>(ranked_dirs(dirs, cat), i, j);
}

/// Files are ranked by size, the largest first.
pub proof fn the_larger_file_ranks_first(a: FoundFileView, b: FoundFileView)
    ensures
        FoundFile::leq(a, b) <==> a.size >= b.size,
{
}

/// The total of a category grows by the size of each directory found with it, and
/// by nothing else.
pub proof fn a_category_adds_up_its_directories(
    dirs: Seq<FoundDirView>,
    d: FoundDirView,
    cat: Category,
)
    ensures
        category_size(Seq::empty(), cat) == 0,
        d.category == cat ==> category_size(dirs.push(d), cat) == category_size(dirs, cat) + d.size,
        d.category != cat ==> category_size(dirs.push(d), cat) == category_size(dirs, cat),
{
    lemma_category_size_push(dirs, d, cat);
}

/// The grand total counts directories and disk images, each by its size, and
/// nothing else.
pub proof fn the_total_counts_directories_and_images(
    result: ScanResultView,
    other: ScanResultView,
    d: FoundDirView,
    f: FoundFileView,
)
    ensures
        result.dirs.len() == 0 && result.disk_images.len() == 0 ==> result.reclaimable() == 0,
        other.dirs == result.dirs.push(d) && other.disk_images == result.disk_images
            ==> other.reclaimable() == result.reclaimable() + d.size,
        other.dirs == result.dirs && other.disk_images == result.disk_images.push(f)
            ==> other.reclaimable() == result.reclaimable() + f.size,
        other.dirs == result.dirs && other.disk_images == result.disk_images
            ==> other.reclaimable() == result.reclaimable(),
{
    assert(result.dirs.push(d).drop_last() =~= result.dirs);
    assert(result.disk_images.push(f).drop_last() =~= result.disk_images);
}

} // verus!
