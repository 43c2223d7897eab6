//! The three ways of deleting: what is taken, in what order, what is said of
//! it, and how much of it came back.

use vstd::prelude::*;

use crate::category::{slugs_are_unique, Category};
use crate::format::{fmt_size, path_text, size_text};
use crate::found::{
    categories_size, category_size, dirs_size, lemma_categories_size_front, lemma_ranked_size,
    of_category, ranked_dirs, FoundDir, FoundDirView, ScanResult,
};
use crate::order::{in_order, lemma_in_order};
use crate::report::{categories_total, Viewer, ViewerView};
use crate::sections::{all_categories, category_list, every_category_is_shown_once};
use crate::style::{plain, styled, Line, LineView, Span, Style};
use crate::text::{
    decimal, eq_ignoring_case, join, joined, left_aligned, number, pad_left, pad_right,
    right_aligned, same_ignoring_case, trim, trimmed, views,
};

verus! {

broadcast use crate::text::lemma_views_push;

// ---------------------------------------------------------------------------
// What a sweep takes
// ---------------------------------------------------------------------------

/// The category is regenerable, and the scan found something of it.
pub open spec fn is_sweepable(dirs: Seq<FoundDirView>, cat: Category) -> bool {
    cat.is_regenerable() && ranked_dirs(dirs, cat).len() > 0
}

/// The categories that a sweep could take.
pub open spec fn sweepable(dirs: Seq<FoundDirView>, cats: Seq<Category>) -> Seq<Category>
    decreases cats.len(),
{
    if cats.len() == 0 {
        Seq::empty()
    } else {
        let front = sweepable(dirs, cats.drop_last());
        if is_sweepable(dirs, cats.last()) {
            front.push(cats.last())
        } else {
            front
        }
    }
}

pub open spec fn slugs(cats: Seq<Category>) -> Seq<Seq<char>> {
    Seq::new(cats.len(), |i: int| cats[i].slug_text())
}

/// Some category goes by this name.
pub open spec fn is_slug(name: Seq<char>) -> bool {
    exists|cat: Category| #[trigger] cat.slug_text() == name
}

/// The first of the names that no category goes by.
pub open spec fn unknown_name(names: Seq<Seq<char>>) -> Option<Seq<char>>
    decreases names.len(),
{
    if names.len() == 0 {
        None
    } else if !is_slug(names[0]) {
        Some(names[0])
    } else {
        unknown_name(names.drop_first())
    }
}

pub open spec fn unknown_message(name: Seq<char>, valid: Seq<Seq<char>>) -> Seq<char> {
    "unknown category '"@ + name + "'.\n  Deletable categories in this scan: "@ + joined(
        valid,
        ", "@,
    )
}

/// The categories that are not held back.
pub open spec fn not_excepted(cats: Seq<Category>, except: Seq<Seq<char>>) -> Seq<Category>
    decreases cats.len(),
{
    if cats.len() == 0 {
        Seq::empty()
    } else {
        let front = not_excepted(cats.drop_last(), except);
        if except.contains(cats.last().slug_text()) {
            front
        } else {
            front.push(cats.last())
        }
    }
}

/// The categories that a sweep takes, in display order.
pub open spec fn planned(dirs: Seq<FoundDirView>, except: Seq<Seq<char>>) -> Seq<Category> {
    not_excepted(sweepable(dirs, category_list()), except)
}

fn find_sweepable(result: &ScanResult) -> (r: Vec<Category>)
    ensures
        r@ == sweepable(result@.dirs, category_list()),
{
    let all = all_categories();
    let mut out: Vec<Category> = Vec::new();
    assert(out@ =~= sweepable(result@.dirs, all@.take(0)));
    for i in 0..all.len()
        invariant
            out@ == sweepable(result@.dirs, all@.take(i as int)),
    {
        assert(all@.take(i + 1).drop_last() =~= all@.take(i as int));
        let cat = all[i];
        let dirs = result.dirs_by_category(cat);
        assert(views(dirs@).len() == dirs.len());
        if cat.safe_to_delete() && dirs.len() > 0 {
            out.push(cat);
        }
    }
    assert(all@.take(all@.len() as int) =~= all@);
    out
}

fn names_a_category(name: &String) -> (r: bool)
    ensures
        r == is_slug(name@),
{
    let all = all_categories();
    for i in 0..all.len()
        invariant
            all@ == category_list(),
            forall|j: int| 0 <= j < i ==> (#[trigger] all@[j]).slug_text() != name@,
    {
        if all[i].slug() == *name {
            assert(all@[i as int].slug_text() == name@);
            return true;
        }
    }
    proof {
        every_category_is_shown_once();
        if is_slug(name@) {
            let cat = choose|cat: Category| #[trigger] cat.slug_text() == name@;
            assert(category_list().contains(cat));
            let j = choose|j: int| 0 <= j < all@.len() && all@[j] == cat;
            assert(all@[j].slug_text() == name@);
        }
    }
    false
}

fn slugs_of(cats: &Vec<Category>) -> (r: Vec<String>)
    ensures
        views(r@) == slugs(cats@),
{
    let mut out: Vec<String> = Vec::new();
    for i in 0..cats.len()
        invariant
            views(out@) =~= slugs(cats@).take(i as int),
    {
        out.push(cats[i].slug());
    }
    assert(slugs(cats@).take(cats@.len() as int) =~= slugs(cats@));
    out
}

fn has_text(texts: &Vec<String>, text: &String) -> (r: bool)
    ensures
        r == views(texts@).contains(text@),
{
    let ghost all = views(texts@);
    for i in 0..texts.len()
        invariant
            all == views(texts@),
            forall|j: int| 0 <= j < i ==> #[trigger] all[j] != text@,
    {
        if texts[i] == *text {
            assert(all[i as int] == text@);
            return true;
        }
    }
    false
}

fn hold_back(cats: Vec<Category>, except: &Vec<String>) -> (r: Vec<Category>)
    ensures
        r@ == not_excepted(cats@, views(except@)),
{
    let mut out: Vec<Category> = Vec::new();
    assert(out@ =~= not_excepted(cats@.take(0), views(except@)));
    for i in 0..cats.len()
        invariant
            out@ == not_excepted(cats@.take(i as int), views(except@)),
    {
        assert(cats@.take(i + 1).drop_last() =~= cats@.take(i as int));
        if !has_text(except, &cats[i].slug()) {
            out.push(cats[i]);
        }
    }
    assert(cats@.take(cats@.len() as int) =~= cats@);
    out
}

/// Every category marked regenerable that the scan found and that is not held
/// back, leaving the review-carefully ones untouched.
///
/// A name matching no category at all is a typo, and the caller believes it
/// held something back, so it is refused rather than ignored. Naming a real
/// category this scan did not turn up excludes nothing, which is what a fixed
/// `--except` set on a machine without that cache means.
pub fn delete_safe(result: &ScanResult, except: &Vec<String>) -> (r: Result<Vec<Category>, String>)
    ensures
        unknown_name(views(except@)) matches Some(name) ==> r is Err && r->Err_0@
            == unknown_message(name, slugs(sweepable(result@.dirs, category_list()))),
        unknown_name(views(except@)) is None ==> r is Ok && r->Ok_0@ == planned(
            result@.dirs,
            views(except@),
        ),
{
    let candidates = find_sweepable(result);
    let ghost names = views(except@);
    assert(names.skip(0) =~= names);
    for i in 0..except.len()
        invariant
            names == views(except@),
            candidates@ == sweepable(result@.dirs, category_list()),
            unknown_name(names) == unknown_name(names.skip(i as int)),
    {
        assert(names.skip(i as int)[0] == names[i as int]);
        assert(names.skip(i as int).drop_first() =~= names.skip(i + 1));
        if !names_a_category(&except[i]) {
            let mut message = "unknown category '".to_owned();
            message.append(except[i].as_str());
            message.append("'.\n  Deletable categories in this scan: ");
            message.append(join(&slugs_of(&candidates), ", ").as_str());
            return Err(message);
        }
    }
    Ok(hold_back(candidates, except))
}

// ---------------------------------------------------------------------------
// Answers
// ---------------------------------------------------------------------------

/// The answer means yes.
pub open spec fn is_yes(input: Seq<char>) -> bool {
    same_ignoring_case(trimmed(input), "y"@)
}

/// Whether the line that was typed confirms.
pub fn confirm(input: &str) -> (r: bool)
    ensures
        r == is_yes(input@),
{
    eq_ignoring_case(trim(input).as_str(), "y")
}

// ---------------------------------------------------------------------------
// Removing one directory
// ---------------------------------------------------------------------------

/// How a found directory is removed.
#[derive(Debug, Clone, Copy, PartialEq, Eq, Structural)]
pub enum Method {
    /// It is a loose file.
    File,
    /// What is in it goes, the directory stays: the OS and running apps expect
    /// paths like %TEMP% and the browser cache roots to exist.
    Contents,
    /// It goes with all that is in it.
    Tree,
}

pub open spec fn method_for(is_file: bool, cat: Category) -> Method {
    if is_file {
        Method::File
    } else if cat.keeps_directory() {
        Method::Contents
    } else {
        Method::Tree
    }
}

/// How to remove something of this category; `is_file` says that it is a file.
pub fn remove(is_file: bool, category: Category) -> (r: Method)
    ensures
        r == method_for(is_file, category),
{
    if is_file {
        Method::File
    } else if category.delete_contents_only() {
        Method::Contents
    } else {
        Method::Tree
    }
}

/// How an entry of a directory that is emptied is removed.
#[derive(Debug, Clone, Copy, PartialEq, Eq, Structural)]
pub enum EntryMethod {
    /// It goes with all that is in it.
    Tree,
    /// As a file, or else as an empty directory: a directory symlink reports as
    /// a non-file but has to be removed as a directory.
    FileOrLink,
}

/// How to remove an entry of a directory that is emptied; `is_dir` says that it
/// is a directory and no link to one.
pub fn clear_entry(is_dir: bool) -> (r: EntryMethod)
    ensures
        r == (if is_dir {
            EntryMethod::Tree
        } else {
            EntryMethod::FileOrLink
        }),
{
    if is_dir {
        EntryMethod::Tree
    } else {
        EntryMethod::FileOrLink
    }
}

/// The bytes that came back: what was there less what is left.
pub open spec fn reclaimed(size: u64, remaining: u64) -> u64 {
    if size > remaining {
        (size - remaining) as u64
    } else {
        0
    }
}

/// What is left of a directory; nothing where it no longer exists.
pub open spec fn left_over(left: Option<u64>) -> u64 {
    match left {
        Some(bytes) => bytes,
        None => 0,
    }
}

/// What the removal of a directory that held `size` bytes comes to: the bytes
/// that came back, and what went wrong. `left` is what it still holds, if it
/// still exists, and `step` how the deletion went. A deletion can fail or stop
/// part-way, so what is actually left counts rather than whether it failed.
pub fn after_removal(size: u64, left: Option<u64>, step: Result<(), String>) -> (r: (
    u64,
    Option<String>,
))
    ensures
        r.0 == reclaimed(size, left_over(left)),
        r.0 <= size,
        r.1 is Some <==> step is Err,
        step matches Err(why) ==> r.1 == Some(why),
{
    let remaining = match left {
        Some(bytes) => bytes,
        None => 0,
    };
    let error = match step {
        Ok(()) => None,
        Err(why) => Some(why),
    };
    (size.saturating_sub(remaining), error)
}

/// How many of the entries could not be removed.
pub open spec fn left_behind(removed: Seq<bool>) -> nat
    decreases removed.len(),
{
    if removed.len() == 0 {
        0
    } else {
        left_behind(removed.drop_last()) + if removed.last() {
            0nat
        } else {
            1nat
        }
    }
}

/// What emptying a directory comes to, given which of its entries were removed.
pub fn clear_contents(removed: &Vec<bool>) -> (r: Result<(), String>)
    ensures
        left_behind(removed@) == 0 ==> r is Ok,
        left_behind(removed@) > 0 ==> r is Err && r->Err_0@ == decimal(left_behind(removed@))
            + " entries still in use"@,
{
    let mut in_use: usize = 0;
    let ghost all = removed@;
    for i in 0..removed.len()
        invariant
            all == removed@,
            in_use == left_behind(all.take(i as int)),
            in_use <= i,
    {
        assert(all.take(i + 1).drop_last() =~= all.take(i as int));
        if !removed[i] {
            in_use = in_use + 1;
        }
    }
    assert(all.take(all.len() as int) =~= all);
    if in_use > 0 {
        let mut message = number(in_use as u128);
        message.append(" entries still in use");
        Err(message)
    } else {
        Ok(())
    }
}

/// How removing a tree went.
#[derive(Debug)]
pub enum Attempt {
    Removed,
    /// Refused for want of permission.
    Denied(String),
    Failed(String),
}

/// What follows the first attempt at removing a tree.
#[derive(Debug)]
pub enum AfterAttempt {
    Done,
    /// Clear the read-only flags in it, then try once more.
    ClearAndRetry,
    GiveUp(String),
}

/// Read-only files are common in package caches; clearing the flag is the one
/// retry worth making before giving up.
pub fn force_remove_dir_all(first: Attempt) -> (r: AfterAttempt)
    ensures
        first is Removed ==> r is Done,
        first is Denied ==> r is ClearAndRetry,
        first matches Attempt::Failed(why) ==> r == AfterAttempt::GiveUp(why),
{
    match first {
        Attempt::Removed => AfterAttempt::Done,
        Attempt::Denied(_) => AfterAttempt::ClearAndRetry,
        Attempt::Failed(why) => AfterAttempt::GiveUp(why),
    }
}

/// A line to be printed, and whether it is an error message.
#[derive(Debug)]
pub struct Message {
    pub line: Line,
    pub is_error: bool,
}

#[verifier::ext_equal]
pub struct MessageView {
    pub line: LineView,
    pub is_error: bool,
}

impl View for Message {
    type V = MessageView;

    open spec fn view(&self) -> MessageView {
        MessageView { line: self.line@, is_error: self.is_error }
    }
}

pub open spec fn error_view(error: Option<String>) -> Option<Seq<char>> {
    match error {
        Some(text) => Some(text@),
        None => None,
    }
}

/// What is said of a removal.
pub open spec fn removal_message(
    dir: FoundDirView,
    freed: u64,
    error: Option<Seq<char>>,
    viewer: ViewerView,
    indent: Seq<char>,
) -> MessageView {
    match error {
        None => MessageView {
            line: seq![
                plain(indent),
                styled("deleted"@, Style::Red),
                plain(" "@),
                styled(viewer.path(dir.path), Style::Dimmed),
            ],
            is_error: false,
        },
        Some(why) => if freed > 0 {
            MessageView {
                line: seq![
                    plain(indent),
                    styled("partial"@, Style::Yellow),
                    plain(" "@),
                    styled(viewer.path(dir.path), Style::Dimmed),
                    plain(" -- "@ + size_text(freed as nat) + " freed, "@ + why),
                ],
                is_error: false,
            }
        } else {
            MessageView {
                line: seq![
                    plain(indent),
                    styled("error"@, Style::Yellow),
                    plain(" "@ + dir.path.text() + ": "@ + why),
                ],
                is_error: true,
            }
        },
    }
}

/// Says how the removal of a directory went.
pub fn remove_reporting(
    dir: &FoundDir,
    freed: u64,
    error: &Option<String>,
    viewer: &Viewer,
    indent: &str,
) -> (r: Message)
    ensures
        r@ == removal_message(dir@, freed, error_view(*error), viewer@, indent@),
{
    let ghost want = removal_message(dir@, freed, error_view(*error), viewer@, indent@);
    match error {
        None => {
            let spans: Vec<Span> = vec![
                Span::plain(indent),
                Span::new("deleted", Style::Red),
                Span::plain(" "),
                Span::new(viewer.path(&dir.path).as_str(), Style::Dimmed),
            ];
            assert(views(spans@) =~= want.line);
            Message { line: Line::new(spans), is_error: false }
        },
        Some(why) => {
            if freed > 0 {
                let mut rest = " -- ".to_owned();
                rest.append(fmt_size(freed).as_str());
                rest.append(" freed, ");
                rest.append(why.as_str());
                let spans: Vec<Span> = vec![
                    Span::plain(indent),
                    Span::new("partial", Style::Yellow),
                    Span::plain(" "),
                    Span::new(viewer.path(&dir.path).as_str(), Style::Dimmed),
                    Span::plain(rest.as_str()),
                ];
                assert(views(spans@) =~= want.line);
                Message { line: Line::new(spans), is_error: false }
            } else {
                let mut rest = " ".to_owned();
                rest.append(dir.path.display().as_str());
                rest.append(": ");
                rest.append(why.as_str());
                let spans: Vec<Span> = vec![
                    Span::plain(indent),
                    Span::new("error", Style::Yellow),
                    Span::plain(rest.as_str()),
                ];
                assert(views(spans@) =~= want.line);
                Message { line: Line::new(spans), is_error: true }
            }
        },
    }
}

// ---------------------------------------------------------------------------
// Going through the categories
// ---------------------------------------------------------------------------

/// The directories of these categories, one category after the other, the
/// largest of each first.
pub open spec fn dirs_of(dirs: Seq<FoundDirView>, cats: Seq<Category>) -> Seq<FoundDirView>
    decreases cats.len(),
{
    if cats.len() == 0 {
        Seq::empty()
    } else {
        dirs_of(dirs, cats.drop_last()) + ranked_dirs(dirs, cats.last())
    }
}

proof fn lemma_dirs_size_concat(a: Seq<FoundDirView>, b: Seq<FoundDirView>)
    ensures
        dirs_size(a + b) == dirs_size(a) + dirs_size(b),
    decreases b.len(),
{
    if b.len() == 0 {
        assert(a + b =~= a);
    } else {
        lemma_dirs_size_concat(a, b.drop_last());
        assert((a + b).drop_last() =~= a + b.drop_last());
    }
}

proof fn lemma_dirs_of_size(dirs: Seq<FoundDirView>, cats: Seq<Category>)
    ensures
        dirs_size(dirs_of(dirs, cats)) == categories_size(dirs, cats),
    decreases cats.len(),
{
    if cats.len() > 0 {
        lemma_dirs_of_size(dirs, cats.drop_last());
        lemma_ranked_size(of_category(dirs, cats.last()));
        lemma_dirs_size_concat(
            dirs_of(dirs, cats.drop_last()),
            ranked_dirs(dirs, cats.last()),
        );
    }
}

/// Position of the first category from `at` on of which something was found.
pub open spec fn next_found(dirs: Seq<FoundDirView>, cats: Seq<Category>, at: nat) -> nat
    decreases cats.len() - at,
{
    if at >= cats.len() {
        cats.len()
    } else if ranked_dirs(dirs, cats[at as int]).len() > 0 {
        at
    } else {
        next_found(dirs, cats, at + 1)
    }
}

/// A deletion under way: categories are offered one by one, the directories of
/// those that are accepted are removed one by one, and what came back is added
/// up.
pub struct Session<'a> {
    pub result: &'a ScanResult,
    pub cats: Vec<Category>,
    /// The categories before this position have been decided on.
    pub at: usize,
    pub accepted: Vec<Category>,
    pub jobs: Vec<&'a FoundDir>,
    /// The jobs before this position are done.
    pub done: usize,
    pub freed: u64,
}

impl<'a> Session<'a> {
    pub open spec fn wf(self) -> bool {
        &&& categories_size(self.result@.dirs, self.cats@) <= u64::MAX
        &&& self.at <= self.cats@.len()
        &&& categories_size(self.result@.dirs, self.accepted@) <= categories_size(
            self.result@.dirs,
            self.cats@.take(self.at as int),
        )
        &&& forall|i: int|
            0 <= i < self.accepted@.len() ==> self.cats@.take(self.at as int).contains(
                #[trigger] self.accepted@[i],
            )
        &&& views(self.jobs@) == dirs_of(self.result@.dirs, self.accepted@)
        &&& self.done <= self.jobs@.len()
        &&& self.freed <= dirs_size(views(self.jobs@).take(self.done as int))
    }

    pub fn new(result: &'a ScanResult, cats: Vec<Category>) -> (r: Session<'a>)
        requires
            categories_size(result@.dirs, cats@) <= u64::MAX,
        ensures
            r.wf(),
            r.result == result,
            r.cats == cats,
            r.at == 0,
            r.accepted@.len() == 0,
            r.jobs@.len() == 0,
            r.done == 0,
            r.freed == 0,
    {
        let r = Session {
            result,
            cats,
            at: 0,
            accepted: Vec::new(),
            jobs: Vec::new(),
            done: 0,
            freed: 0,
        };
        assert(views(r.jobs@) =~= dirs_of(result@.dirs, r.accepted@));
        r
    }

    /// The next category of which something was found, if there is one left.
    pub fn offer(&mut self) -> (r: Option<Category>)
        requires
            old(self).wf(),
        ensures
            final(self).wf(),
            final(self).at == next_found(old(self).result@.dirs, old(self).cats@, old(self).at as nat),
            r == (if final(self).at < final(self).cats@.len() {
                Some(final(self).cats@[final(self).at as int])
            } else {
                None
            }),
            final(self).result == old(self).result,
            final(self).cats == old(self).cats,
            final(self).accepted == old(self).accepted,
            final(self).jobs == old(self).jobs,
            final(self).done == old(self).done,
            final(self).freed == old(self).freed,
    {
        let ghost start = *self;
        while self.at < self.cats.len()
            invariant
                start == *old(self),
                self.wf(),
                next_found(start.result@.dirs, start.cats@, start.at as nat) == next_found(
                    start.result@.dirs,
                    start.cats@,
                    self.at as nat,
                ),
                self.result == start.result,
                self.cats == start.cats,
                self.accepted == start.accepted,
                self.jobs == start.jobs,
                self.done == start.done,
                self.freed == start.freed,
            decreases self.cats.len() - self.at,
        {
            let cat = self.cats[self.at];
            let dirs = self.result.dirs_by_category(cat);
            assert(views(dirs@).len() == dirs.len());
            if dirs.len() > 0 {
                return Some(cat);
            }
            proof {
                lemma_further(*self);
            }
            self.at = self.at + 1;
        }
        None
    }

    /// Takes the category that is offered.
    pub fn accept(&mut self)
        requires
            old(self).wf(),
            old(self).at < old(self).cats@.len(),
        ensures
            final(self).wf(),
            final(self).at == old(self).at + 1,
            final(self).accepted@ == old(self).accepted@.push(
                old(self).cats@[old(self).at as int],
            ),
            views(final(self).jobs@) == views(old(self).jobs@) + ranked_dirs(
                old(self).result@.dirs,
                old(self).cats@[old(self).at as int],
            ),
            final(self).result == old(self).result,
            final(self).cats == old(self).cats,
            final(self).done == old(self).done,
            final(self).freed == old(self).freed,
    {
        let ghost start = *self;
        let cat = self.cats[self.at];
        assert(self.at < self.cats.len());
        let result = self.result;
        let mut dirs = result.dirs_by_category(cat);
        let ghost more = views(dirs@);
        proof {
            lemma_further(start);
        }
        self.accepted.push(cat);
        self.jobs.append(&mut dirs);
        self.at = self.at + 1;
        proof {
            assert(views(self.jobs@) =~= views(start.jobs@) + more);
            assert(self.accepted@.drop_last() =~= start.accepted@);
            assert(views(self.jobs@).take(self.done as int) =~= views(start.jobs@).take(
                self.done as int,
            ));
            let taken = self.cats@.take(self.at as int);
            assert forall|i: int| 0 <= i < self.accepted@.len() implies taken.contains(
                #[trigger] self.accepted@[i],
            ) by {
                if i < start.accepted@.len() {
                    assert(start.accepted@[i] == self.accepted@[i]);
                } else {
                    assert(taken[start.at as int] == cat);
                }
            }
        }
    }

    /// Leaves the category that is offered alone.
    pub fn decline(&mut self)
        requires
            old(self).wf(),
            old(self).at < old(self).cats@.len(),
        ensures
            final(self).wf(),
            final(self).at == old(self).at + 1,
            final(self).accepted == old(self).accepted,
            final(self).jobs == old(self).jobs,
            final(self).result == old(self).result,
            final(self).cats == old(self).cats,
            final(self).done == old(self).done,
            final(self).freed == old(self).freed,
    {
        proof {
            lemma_further(*self);
            assert(self.at < self.cats.len());
        }
        self.at = self.at + 1;
    }

    /// The next directory to remove, if there is one.
    pub fn job(&self) -> (r: Option<&'a FoundDir>)
        requires
            self.wf(),
        ensures
            r == (if self.done < self.jobs@.len() {
                Some(self.jobs@[self.done as int])
            } else {
                None
            }),
    {
        if self.done < self.jobs.len() {
            Some(self.jobs[self.done])
        } else {
            None
        }
    }

    /// Takes in how the removal of the next directory went, and says what came
    /// back of it and what went wrong. A live cache can hold open handles, so a
    /// partial delete is the normal case: what is actually left counts rather
    /// than the size the scan recorded.
    pub fn settle(&mut self, left: Option<u64>, step: Result<(), String>) -> (r: (
        u64,
        Option<String>,
    ))
        requires
            old(self).wf(),
            old(self).done < old(self).jobs@.len(),
        ensures
            final(self).wf(),
            r.0 == reclaimed(old(self).jobs@[old(self).done as int].size, left_over(left)),
            r.1 is Some <==> step is Err,
            step matches Err(why) ==> r.1 == Some(why),
            final(self).freed == old(self).freed + r.0,
            final(self).done == old(self).done + 1,
            final(self).at == old(self).at,
            final(self).accepted == old(self).accepted,
            final(self).jobs == old(self).jobs,
            final(self).result == old(self).result,
            final(self).cats == old(self).cats,
    {
        let size = self.jobs[self.done].size;
        let outcome = after_removal(size, left, step);
        proof {
            lemma_settle(*self);
            assert(self.done < self.jobs.len());
        }
        self.freed = self.freed + outcome.0;
        self.done = self.done + 1;
        outcome
    }
}

/// What is decided on stays decided on.
proof fn lemma_further(s: Session<'_>)
    requires
        s.wf(),
        s.at < s.cats@.len(),
    ensures
        forall|i: int|
            0 <= i < s.accepted@.len() ==> s.cats@.take(s.at + 1).contains(
                #[trigger] s.accepted@[i],
            ),
        categories_size(s.result@.dirs, s.cats@.take(s.at + 1)) == categories_size(
            s.result@.dirs,
            s.cats@.take(s.at as int),
        ) + category_size(s.result@.dirs, s.cats@[s.at as int]),
{
    let now = s.cats@.take(s.at as int);
    let next = s.cats@.take(s.at + 1);
    assert(next.drop_last() =~= now);
    assert forall|i: int| 0 <= i < s.accepted@.len() implies next.contains(
        #[trigger] s.accepted@[i],
    ) by {
        let k = choose|k: int| 0 <= k < now.len() && now[k] == s.accepted@[i];
        assert(next[k] == s.accepted@[i]);
    }
}

proof fn lemma_dirs_size_upto(dirs: Seq<FoundDirView>, n: int)
    requires
        0 <= n <= dirs.len(),
    ensures
        dirs_size(dirs.take(n)) <= dirs_size(dirs),
{
    lemma_dirs_size_concat(dirs.take(n), dirs.skip(n));
    assert(dirs.take(n) + dirs.skip(n) =~= dirs);
}

/// The sum of what came back never exceeds what there was.
proof fn lemma_settle(s: Session<'_>)
    requires
        s.wf(),
        s.done < s.jobs@.len(),
    ensures
        s.freed + s.jobs@[s.done as int].size <= dirs_size(views(s.jobs@).take(s.done + 1)),
        s.freed + s.jobs@[s.done as int].size <= u64::MAX,
{
    let all = views(s.jobs@);
    assert(all.take(s.done + 1).drop_last() =~= all.take(s.done as int));
    lemma_dirs_size_upto(all, s.done + 1);
    lemma_dirs_of_size(s.result@.dirs, s.accepted@);
    lemma_categories_size_front(s.result@.dirs, s.cats@, s.at as int);
}

// ---------------------------------------------------------------------------
// What is said
// ---------------------------------------------------------------------------

/// A line of one path.
pub open spec fn path_line(dir: FoundDirView, viewer: ViewerView) -> LineView {
    seq![plain("    "@), styled(viewer.path(dir.path), Style::Dimmed)]
}

fn path_of_dir(dir: &FoundDir, viewer: &Viewer) -> (r: Line)
    ensures
        r@ == path_line(dir@, viewer@),
{
    let spans: Vec<Span> = vec![
        Span::plain("    "),
        Span::new(viewer.path(&dir.path).as_str(), Style::Dimmed),
    ];
    assert(views(spans@) =~= path_line(dir@, viewer@));
    Line::new(spans)
}

/// The paths of the first `n` directories.
pub open spec fn path_lines(dirs: Seq<FoundDirView>, n: nat, viewer: ViewerView) -> Seq<LineView> {
    Seq::new(n, |i: int| path_line(dirs[i], viewer))
}

fn push_paths(dirs: &Vec<&FoundDir>, n: usize, viewer: &Viewer, out: &mut Vec<Line>)
    requires
        n <= dirs@.len(),
    ensures
        views(final(out)@) == views(old(out)@) + path_lines(views(dirs@), n as nat, viewer@),
{
    let ghost had = views(out@);
    let ghost all = views(dirs@);
    let ghost want = path_lines(all, n as nat, viewer@);
    for i in 0..n
        invariant
            n <= dirs@.len(),
            all == views(dirs@),
            want == path_lines(all, n as nat, viewer@),
            views(out@) =~= had + want.take(i as int),
    {
        assert(all[i as int] == dirs@[i as int]@);
        out.push(path_of_dir(dirs[i], viewer));
    }
    assert(want.take(want.len() as int) =~= want);
}

/// What is said before all directories of one category go.
pub open spec fn category_intro(
    dirs: Seq<FoundDirView>,
    cat: Category,
    viewer: ViewerView,
) -> Seq<LineView> {
    let ranked = ranked_dirs(dirs, cat);
    if ranked.len() == 0 {
        seq![seq![plain("No "@ + cat.label_text() + " found."@)]]
    } else {
        seq![
            LineView::empty(),
            seq![
                plain("  "@ + decimal(ranked.len()) + " "@ + cat.label_text() + "  ("@),
                styled(size_text(category_size(dirs, cat)), Style::Bold),
                plain(")"@),
            ],
        ] + path_lines(ranked, ranked.len(), viewer)
    }
}

/// Announces the deletion of all directories of one category.
pub fn delete_category(result: &ScanResult, category: Category, viewer: &Viewer) -> (r: Vec<Line>)
    requires
        category_size(result@.dirs, category) <= u64::MAX,
    ensures
        views(r@) == category_intro(result@.dirs, category, viewer@),
{
    let mut out: Vec<Line> = Vec::new();
    let targets = result.dirs_by_category(category);
    let ghost ranked = views(targets@);
    if targets.len() == 0 {
        let mut text = "No ".to_owned();
        text.append(category.label());
        text.append(" found.");
        let spans: Vec<Span> = vec![Span::plain(text.as_str())];
        assert(views(spans@) =~= category_intro(result@.dirs, category, viewer@)[0]);
        out.push(Line::new(spans));
        assert(views(out@) =~= category_intro(result@.dirs, category, viewer@));
        return out;
    }
    let total = result.category_total(category);
    let mut text = "  ".to_owned();
    text.append(number(targets.len() as u128).as_str());
    text.append(" ");
    text.append(category.label());
    text.append("  (");
    let spans: Vec<Span> = vec![
        Span::plain(text.as_str()),
        Span::new(fmt_size(total).as_str(), Style::Bold),
        Span::plain(")"),
    ];
    assert(views(spans@) =~= category_intro(result@.dirs, category, viewer@)[1]);
    out.push(Line::blank());
    out.push(Line::new(spans));
    push_paths(&targets, targets.len(), viewer, &mut out);
    assert(views(out@) =~= category_intro(result@.dirs, category, viewer@));
    out
}

/// What is said when a category is offered: its size, the first of its
/// directories and whether they stay behind empty.
pub open spec fn offer_lines(
    dirs: Seq<FoundDirView>,
    cat: Category,
    viewer: ViewerView,
) -> Seq<LineView> {
    let ranked = ranked_dirs(dirs, cat);
    let head = seq![
        LineView::empty(),
        seq![
            plain("  "@),
            styled(cat.label_text(), Style::BoldCyan),
            plain(" -- "@),
            styled(size_text(category_size(dirs, cat)), Style::Bold),
            if cat.is_regenerable() {
                styled(" [safe to delete]"@, Style::Green)
            } else {
                styled(" [review carefully]"@, Style::Yellow)
            },
        ],
    ];
    let first = path_lines(
        ranked,
        if ranked.len() > OFFER_SHOWN {
            OFFER_SHOWN as nat
        } else {
            ranked.len()
        },
        viewer,
    );
    let more = if ranked.len() > OFFER_SHOWN {
        seq![
            seq![plain("    ... and "@ + decimal((ranked.len() - OFFER_SHOWN) as nat) + " more"@)],
        ]
    } else {
        Seq::empty()
    };
    let stays = if cat.keeps_directory() {
        seq![
            seq![
                plain("    "@),
                styled("(contents are cleared; the directory itself stays)"@, Style::Dimmed),
            ],
        ]
    } else {
        Seq::empty()
    };
    head + first + more + stays
}

/// How many directories are named when a category is offered.
pub const OFFER_SHOWN: usize = 5;

/// Offers one category for deletion.
pub fn interactive_delete(result: &ScanResult, cat: Category, viewer: &Viewer) -> (r: Vec<Line>)
    requires
        category_size(result@.dirs, cat) <= u64::MAX,
    ensures
        views(r@) == offer_lines(result@.dirs, cat, viewer@),
{
    let ghost want = offer_lines(result@.dirs, cat, viewer@);
    let mut out: Vec<Line> = Vec::new();
    let dirs = result.dirs_by_category(cat);
    let ghost ranked = views(dirs@);
    let total = result.category_total(cat);
    let safe = if cat.safe_to_delete() {
        Span::new(" [safe to delete]", Style::Green)
    } else {
        Span::new(" [review carefully]", Style::Yellow)
    };
    let spans: Vec<Span> = vec![
        Span::plain("  "),
        Span::new(cat.label(), Style::BoldCyan),
        Span::plain(" -- "),
        Span::new(fmt_size(total).as_str(), Style::Bold),
        safe,
    ];
    assert(views(spans@) =~= want[1]);
    out.push(Line::blank());
    out.push(Line::new(spans));
    let n = if dirs.len() > OFFER_SHOWN {
        OFFER_SHOWN
    } else {
        dirs.len()
    };
    push_paths(&dirs, n, viewer, &mut out);
    let ghost first = views(out@);
    if dirs.len() > OFFER_SHOWN {
        let mut text = "    ... and ".to_owned();
        text.append(number((dirs.len() - OFFER_SHOWN) as u128).as_str());
        text.append(" more");
        let spans: Vec<Span> = vec![Span::plain(text.as_str())];
        assert(views(spans@) =~= seq![
            plain("    ... and "@ + decimal((ranked.len() - OFFER_SHOWN) as nat) + " more"@),
        ]);
        out.push(Line::new(spans));
    }
    if cat.delete_contents_only() {
        let spans: Vec<Span> = vec![
            Span::plain("    "),
            Span::new("(contents are cleared; the directory itself stays)", Style::Dimmed),
        ];
        assert(views(spans@) =~= seq![
            plain("    "@),
            styled("(contents are cleared; the directory itself stays)"@, Style::Dimmed),
        ]);
        out.push(Line::new(spans));
    }
    assert(views(out@) =~= want);
    out
}

// ---------------------------------------------------------------------------
// The sweep's preview
// ---------------------------------------------------------------------------

pub open spec fn excluded_lines(except: Seq<Seq<char>>) -> Seq<LineView> {
    Seq::new(
        except.len(),
        |i: int|
            seq![plain("  "@), styled("excluded:"@, Style::Yellow), plain(" "@ + except[i])],
    )
}

/// `dir` or `dirs`.
pub open spec fn dirs_word(n: nat) -> Seq<char> {
    if n == 1 {
        "dir"@
    } else {
        "dirs"@
    }
}

pub open spec fn preview_line(dirs: Seq<FoundDirView>, cat: Category) -> LineView {
    let n = ranked_dirs(dirs, cat).len();
    seq![
        plain("    "@),
        styled(pad_right(cat.label_text(), 28), Style::Cyan),
        plain(
            " "@ + pad_left(size_text(category_size(dirs, cat)), 9) + "  ("@ + decimal(n) + " "@
                + dirs_word(n) + ", --except "@,
        ),
        styled(cat.slug_text(), Style::Dimmed),
        plain(")"@),
    ]
}

pub open spec fn preview_lines(dirs: Seq<FoundDirView>, cats: Seq<Category>) -> Seq<LineView> {
    Seq::new(cats.len(), |i: int| preview_line(dirs, cats[i]))
}

pub open spec fn preview_total(total: nat) -> LineView {
    seq![
        plain("    "@),
        styled(pad_right("TOTAL"@, 28), Style::Bold),
        plain(" "@),
        styled(pad_left(size_text(total), 9), Style::Bold),
    ]
}

/// What is said before a sweep.
pub open spec fn sweep_lines(
    dirs: Seq<FoundDirView>,
    cats: Seq<Category>,
    except: Seq<Seq<char>>,
) -> Seq<LineView> {
    if cats.len() == 0 {
        seq![seq![plain("Nothing regenerable found."@)]]
    } else {
        excluded_lines(except) + seq![
            LineView::empty(),
            seq![plain("  "@), styled("About to delete these categories:"@, Style::Bold)],
        ] + preview_lines(dirs, cats) + seq![preview_total(categories_size(dirs, cats))]
    }
}

fn preview_row(result: &ScanResult, cat: Category) -> (r: Line)
    requires
        category_size(result@.dirs, cat) <= u64::MAX,
    ensures
        r@ == preview_line(result@.dirs, cat),
{
    let dirs = result.dirs_by_category(cat);
    assert(views(dirs@).len() == dirs.len());
    let mut text = " ".to_owned();
    text.append(right_aligned(fmt_size(result.category_total(cat)).as_str(), 9).as_str());
    text.append("  (");
    text.append(number(dirs.len() as u128).as_str());
    text.append(" ");
    text.append(
        if dirs.len() == 1 {
            "dir"
        } else {
            "dirs"
        },
    );
    text.append(", --except ");
    let spans: Vec<Span> = vec![
        Span::plain("    "),
        Span::new(left_aligned(cat.label(), 28).as_str(), Style::Cyan),
        Span::plain(text.as_str()),
        Span::new(cat.slug().as_str(), Style::Dimmed),
        Span::plain(")"),
    ];
    assert(views(spans@) =~= preview_line(result@.dirs, cat));
    Line::new(spans)
}

/// Lists what a sweep is about to delete.
pub fn sweep_preview(result: &ScanResult, cats: &Vec<Category>, except: &Vec<String>) -> (r: Vec<
    Line,
>)
    requires
        categories_size(result@.dirs, cats@) <= u64::MAX,
    ensures
        views(r@) == sweep_lines(result@.dirs, cats@, views(except@)),
{
    let ghost names = views(except@);
    let ghost want = sweep_lines(result@.dirs, cats@, names);
    let mut out: Vec<Line> = Vec::new();
    if cats.len() == 0 {
        let spans: Vec<Span> = vec![Span::plain("Nothing regenerable found.")];
        assert(views(spans@) =~= want[0]);
        out.push(Line::new(spans));
        assert(views(out@) =~= want);
        return out;
    }
    let ghost excluded = excluded_lines(names);
    for i in 0..except.len()
        invariant
            names == views(except@),
            excluded == excluded_lines(names),
            views(out@) =~= excluded.take(i as int),
    {
        let mut text = " ".to_owned();
        text.append(except[i].as_str());
        let spans: Vec<Span> = vec![
            Span::plain("  "),
            Span::new("excluded:", Style::Yellow),
            Span::plain(text.as_str()),
        ];
        assert(views(spans@) =~= excluded[i as int]);
        out.push(Line::new(spans));
    }
    out.push(Line::blank());
    let spans: Vec<Span> = vec![
        Span::plain("  "),
        Span::new("About to delete these categories:", Style::Bold),
    ];
    assert(views(spans@) =~= seq![
        plain("  "@),
        styled("About to delete these categories:"@, Style::Bold),
    ]);
    out.push(Line::new(spans));
    let ghost head = views(out@);
    let ghost rows = preview_lines(result@.dirs, cats@);
    for i in 0..cats.len()
        invariant
            categories_size(result@.dirs, cats@) <= u64::MAX,
            rows == preview_lines(result@.dirs, cats@),
            views(out@) =~= head + rows.take(i as int),
    {
        proof {
            lemma_categories_size_front(result@.dirs, cats@, i as int);
        }
        out.push(preview_row(result, cats[i]));
    }
    let total = categories_total(result, cats);
    let spans: Vec<Span> = vec![
        Span::plain("    "),
        Span::new(left_aligned("TOTAL", 28).as_str(), Style::Bold),
        Span::plain(" "),
        Span::new(right_aligned(fmt_size(total).as_str(), 9).as_str(), Style::Bold),
    ];
    assert(views(spans@) =~= preview_total(categories_size(result@.dirs, cats@)));
    out.push(Line::new(spans));
    assert(views(out@) =~= want);
    out
}

/// The question before a sweep, to be asked on a line below an empty one.
pub open spec fn sweep_question() -> LineView {
    seq![plain("  Delete all of it? ["@), styled("y"@, Style::Green), plain("/N] "@)]
}

pub fn sweep_prompt() -> (r: Line)
    ensures
        r@ == sweep_question(),
{
    let spans: Vec<Span> = vec![
        Span::plain("  Delete all of it? ["),
        Span::new("y", Style::Green),
        Span::plain("/N] "),
    ];
    assert(views(spans@) =~= sweep_question());
    Line::new(spans)
}

/// Whether a sweep goes ahead: it was confirmed in advance, or the answer is
/// yes.
pub fn sweep_confirmed(assume_yes: bool, answer: &str) -> (r: bool)
    ensures
        r == (assume_yes || is_yes(answer@)),
{
    assume_yes || confirm(answer)
}

/// The heading over the removals of one category.
pub open spec fn removing_line(cat: Category) -> LineView {
    seq![plain("  "@), styled(cat.label_text(), Style::BoldCyan)]
}

pub fn removing(cat: Category) -> (r: Line)
    ensures
        r@ == removing_line(cat),
{
    let spans: Vec<Span> = vec![Span::plain("  "), Span::new(cat.label(), Style::BoldCyan)];
    assert(views(spans@) =~= removing_line(cat));
    Line::new(spans)
}

/// The last line of a deletion that went through several categories.
pub open spec fn total_freed_line(freed: u64) -> LineView {
    seq![plain("  Total freed: "@), styled(size_text(freed as nat), Style::BoldGreen)]
}

pub fn total_freed(freed: u64) -> (r: Line)
    ensures
        r@ == total_freed_line(freed),
{
    let spans: Vec<Span> = vec![
        Span::plain("  Total freed: "),
        Span::new(fmt_size(freed).as_str(), Style::BoldGreen),
    ];
    assert(views(spans@) =~= total_freed_line(freed));
    Line::new(spans)
}

/// The last line of the deletion of one category.
pub open spec fn freed_line(freed: u64) -> LineView {
    seq![plain("  "@), styled(size_text(freed as nat), Style::BoldGreen), plain(" freed."@)]
}

pub fn category_freed(freed: u64) -> (r: Line)
    ensures
        r@ == freed_line(freed),
{
    let spans: Vec<Span> = vec![
        Span::plain("  "),
        Span::new(fmt_size(freed).as_str(), Style::BoldGreen),
        Span::plain(" freed."),
    ];
    assert(views(spans@) =~= freed_line(freed));
    Line::new(spans)
}

// ---------------------------------------------------------------------------
// Laws
// ---------------------------------------------------------------------------

proof fn lemma_sweepable(dirs: Seq<FoundDirView>, cats: Seq<Category>)
    ensures
        forall|c: Category| #[trigger]
            sweepable(dirs, cats).contains(c) <==> cats.contains(c) && is_sweepable(dirs, c),
        cats.no_duplicates() ==> sweepable(dirs, cats).no_duplicates(),
    decreases cats.len(),
{
    if cats.len() > 0 {
        let front = cats.drop_last();
        let kept = sweepable(dirs, front);
        let all = sweepable(dirs, cats);
        lemma_sweepable(dirs, front);
        assert(cats =~= front.push(cats.last()));
        assert forall|c: Category| #[trigger] all.contains(c) <==> cats.contains(c) && is_sweepable(
            dirs,
            c,
        ) by {
            lemma_contains_push(front, cats.last(), c);
            lemma_contains_push(kept, cats.last(), c);
        }
        if cats.no_duplicates() {
            assert(front.no_duplicates());
            assert(!front.contains(cats.last())) by {
                if front.contains(cats.last()) {
                    let k = choose|k: int| 0 <= k < front.len() && front[k] == cats.last();
                    assert(cats[k] == cats[cats.len() - 1]);
                }
            }
            assert(!kept.contains(cats.last()));
            assert forall|i: int, j: int|
                0 <= i < all.len() && 0 <= j < all.len() && i != j implies all[i] != all[j] by {
                if i < kept.len() {
                    assert(kept.contains(kept[i]));
                }
                if j < kept.len() {
                    assert(kept.contains(kept[j]));
                }
            }
        }
    }
}

proof fn lemma_contains_push(s: Seq<Category>, x: Category, c: Category)
    ensures
        s.push(x).contains(c) <==> s.contains(c) || c == x,
{
    if s.contains(c) {
        let k = choose|k: int| 0 <= k < s.len() && s[k] == c;
        assert(s.push(x)[k] == c);
    }
    if c == x {
        assert(s.push(x)[s.len() as int] == c);
    }
    if s.push(x).contains(c) {
        let k = choose|k: int| 0 <= k < s.push(x).len() && s.push(x)[k] == c;
        if k < s.len() {
            assert(s[k] == c);
        }
    }
}

proof fn lemma_not_excepted(cats: Seq<Category>, except: Seq<Seq<char>>)
    ensures
        forall|c: Category| #[trigger]
            not_excepted(cats, except).contains(c) <==> cats.contains(c) && !except.contains(
                c.slug_text(),
            ),
        cats.no_duplicates() ==> not_excepted(cats, except).no_duplicates(),
    decreases cats.len(),
{
    if cats.len() > 0 {
        let front = cats.drop_last();
        let kept = not_excepted(front, except);
        let all = not_excepted(cats, except);
        lemma_not_excepted(front, except);
        assert(cats =~= front.push(cats.last()));
        assert forall|c: Category| #[trigger] all.contains(c) <==> cats.contains(c)
            && !except.contains(c.slug_text()) by {
            lemma_contains_push(front, cats.last(), c);
            lemma_contains_push(kept, cats.last(), c);
        }
        if cats.no_duplicates() {
            assert(front.no_duplicates());
            assert(!front.contains(cats.last())) by {
                if front.contains(cats.last()) {
                    let k = choose|k: int| 0 <= k < front.len() && front[k] == cats.last();
                    assert(cats[k] == cats[cats.len() - 1]);
                }
            }
            assert(!kept.contains(cats.last()));
            assert forall|i: int, j: int|
                0 <= i < all.len() && 0 <= j < all.len() && i != j implies all[i] != all[j] by {
                if i < kept.len() {
                    assert(kept.contains(kept[i]));
                }
                if j < kept.len() {
                    assert(kept.contains(kept[j]));
                }
            }
        }
    }
}

/// A sweep takes exactly the regenerable categories that were found and are not
/// held back, each once. No category for review is ever among them, whatever is
/// held back, and none that is held back by name.
pub proof fn a_sweep_takes_exactly_what_is_safe(dirs: Seq<FoundDirView>, except: Seq<Seq<char>>)
    ensures
        planned(dirs, except).no_duplicates(),
        forall|c: Category| #[trigger]
            planned(dirs, except).contains(c) <==> c.is_regenerable() && ranked_dirs(dirs, c).len()
                > 0 && !except.contains(c.slug_text()),
{
    every_category_is_shown_once();
    lemma_sweepable(dirs, category_list());
    lemma_not_excepted(sweepable(dirs, category_list()), except);
    assert forall|c: Category| #[trigger]
        planned(dirs, except).contains(c) <==> c.is_regenerable() && ranked_dirs(dirs, c).len() > 0
            && !except.contains(c.slug_text()) by {
        assert(category_list().contains(c));
        assert(sweepable(dirs, category_list()).contains(c) <==> is_sweepable(dirs, c));
    }
}

/// A set of exceptions is refused if and only if one of them is no category.
pub proof fn a_typo_is_refused(except: Seq<Seq<char>>)
    ensures
        unknown_name(except) is Some <==> exists|i: int|
            0 <= i < except.len() && !is_slug(#[trigger] except[i]),
    decreases except.len(),
{
    if except.len() > 0 {
        let rest = except.drop_first();
        a_typo_is_refused(rest);
        if is_slug(except[0]) {
            if exists|i: int| 0 <= i < except.len() && !is_slug(#[trigger] except[i]) {
                let i = choose|i: int| 0 <= i < except.len() && !is_slug(#[trigger] except[i]);
                assert(rest[i - 1] == except[i]);
            }
            if exists|i: int| 0 <= i < rest.len() && !is_slug(#[trigger] rest[i]) {
                let i = choose|i: int| 0 <= i < rest.len() && !is_slug(#[trigger] rest[i]);
                assert(except[i + 1] == rest[i]);
            }
        }
    }
}

/// Holding back a category of which nothing was found changes nothing.
pub proof fn holding_back_what_is_absent_changes_nothing(
    dirs: Seq<FoundDirView>,
    except: Seq<Seq<char>>,
    absent: Category,
)
    requires
        ranked_dirs(dirs, absent).len() == 0,
    ensures
        planned(dirs, except.push(absent.slug_text())) == planned(dirs, except),
{
    let cats = sweepable(dirs, category_list());
    lemma_sweepable(dirs, category_list());
    assert forall|i: int| 0 <= i < cats.len() implies #[trigger] cats[i] != absent by {
        assert(cats.contains(cats[i]));
    }
    lemma_same_exceptions(cats, except, absent);
}

proof fn lemma_same_exceptions(cats: Seq<Category>, except: Seq<Seq<char>>, absent: Category)
    requires
        forall|i: int| 0 <= i < cats.len() ==> #[trigger] cats[i] != absent,
    ensures
        not_excepted(cats, except.push(absent.slug_text())) == not_excepted(cats, except),
    decreases cats.len(),
{
    if cats.len() > 0 {
        let more = except.push(absent.slug_text());
        let last = cats.last();
        lemma_same_exceptions(cats.drop_last(), except, absent);
        assert(last != absent) by {
            assert(cats[cats.len() - 1] != absent);
        }
        if last.slug_text() == absent.slug_text() {
            slugs_are_unique(last, absent);
        }
        if except.contains(last.slug_text()) {
            let k = choose|k: int| 0 <= k < except.len() && except[k] == last.slug_text();
            assert(more[k] == last.slug_text());
        }
        if more.contains(last.slug_text()) {
            let k = choose|k: int| 0 <= k < more.len() && more[k] == last.slug_text();
            assert(k < except.len());
            assert(except[k] == last.slug_text());
        }
    }
}

proof fn lemma_of_category_all(dirs: Seq<FoundDirView>, cat: Category)
    ensures
        forall|d: FoundDirView| #[trigger]
            of_category(dirs, cat).contains(d) ==> d.category == cat && dirs.contains(d),
    decreases dirs.len(),
{
    if dirs.len() > 0 {
        let front = dirs.drop_last();
        let kept = of_category(front, cat);
        let all = of_category(dirs, cat);
        lemma_of_category_all(front, cat);
        assert forall|d: FoundDirView| #[trigger] all.contains(d) implies d.category == cat
            && dirs.contains(d) by {
            let k = choose|k: int| 0 <= k < all.len() && all[k] == d;
            if k < kept.len() {
                assert(kept[k] == d);
                assert(kept.contains(d));
                assert(front.contains(d));
                let i = choose|i: int| 0 <= i < front.len() && front[i] == d;
                assert(dirs[i] == d);
            } else {
                assert(dirs[dirs.len() - 1] == d);
            }
        }
    }
}

proof fn lemma_dirs_of(dirs: Seq<FoundDirView>, cats: Seq<Category>, i: int)
    requires
        0 <= i < dirs_of(dirs, cats).len(),
    ensures
        cats.contains(dirs_of(dirs, cats)[i].category),
        dirs.contains(dirs_of(dirs, cats)[i]),
    decreases cats.len(),
{
    let front = dirs_of(dirs, cats.drop_last());
    let ranked = ranked_dirs(dirs, cats.last());
    let d = dirs_of(dirs, cats)[i];
    if i < front.len() {
        lemma_dirs_of(dirs, cats.drop_last(), i);
        let k = choose|k: int|
            0 <= k < cats.drop_last().len() && cats.drop_last()[k] == d.category;
        assert(cats[k] == d.category);
    } else {
        let own = of_category(dirs, cats.last());
        lemma_in_order::<FoundDir>(own);
        lemma_of_category_all(dirs, cats.last());
        assert(ranked[i - front.len()] == d);
        assert(ranked.contains(d));
        assert(in_order::<FoundDir>(own).contains(d) <==> own.contains(d));
        assert(cats[cats.len() - 1] == d.category);
    }
}

/// A deletion only ever removes what the scan found, of categories that were
/// accepted; in a sweep, these are regenerable and not held back. It never
/// reports more bytes freed than its directories held.
pub proof fn only_what_was_accepted_is_removed(
    session: Session<'_>,
    except: Seq<Seq<char>>,
    i: int,
)
    requires
        session.wf(),
        0 <= i < session.jobs@.len(),
    ensures
        session.accepted@.contains(session.jobs@[i].category),
        session.result@.dirs.contains(session.jobs@[i]@),
        session.cats@ == planned(session.result@.dirs, except)
            ==> session.jobs@[i].category.is_regenerable() && !except.contains(
            session.jobs@[i].category.slug_text(),
        ),
        session.freed <= dirs_size(views(session.jobs@)),
{
    let dirs = session.result@.dirs;
    let jobs = views(session.jobs@);
    assert(jobs[i] == session.jobs@[i]@);
    lemma_dirs_of(dirs, session.accepted@, i);
    lemma_dirs_size_upto(jobs, session.done as int);
    if session.cats@ == planned(dirs, except) {
        let cat = session.jobs@[i].category;
        a_sweep_takes_exactly_what_is_safe(dirs, except);
        let k = choose|k: int|
            0 <= k < session.accepted@.len() && session.accepted@[k] == cat;
        let taken = session.cats@.take(session.at as int);
        assert(taken.contains(session.accepted@[k]));
        let m = choose|m: int| 0 <= m < taken.len() && taken[m] == cat;
        assert(session.cats@[m] == cat);
        assert(planned(dirs, except).contains(cat));
    }
}

/// What is removed gives back no more than it held, and all of it where
/// nothing is left.
pub proof fn only_what_is_gone_counts_as_freed(size: u64, remaining: u64)
    ensures
        reclaimed(size, remaining) <= size,
        remaining <= size ==> reclaimed(size, remaining) + remaining == size,
        reclaimed(size, 0) == size,
{
}

proof fn lemma_found(dirs: Seq<FoundDirView>, cat: Category)
    ensures
        ranked_dirs(dirs, cat).len() > 0 <==> exists|i: int|
            0 <= i < dirs.len() && (#[trigger] dirs[i]).category == cat,
    decreases dirs.len(),
{
    let own = of_category(dirs, cat);
    lemma_in_order::<FoundDir>(own);
    if dirs.len() > 0 {
        let front = dirs.drop_last();
        lemma_found(front, cat);
        lemma_in_order::<FoundDir>(of_category(front, cat));
        if exists|i: int| 0 <= i < front.len() && (#[trigger] front[i]).category == cat {
            let i = choose|i: int| 0 <= i < front.len() && (#[trigger] front[i]).category == cat;
            assert(dirs[i].category == cat);
        }
        if exists|i: int| 0 <= i < dirs.len() && (#[trigger] dirs[i]).category == cat {
            let i = choose|i: int| 0 <= i < dirs.len() && (#[trigger] dirs[i]).category == cat;
            if i < front.len() {
                assert(front[i].category == cat);
            }
        }
        if dirs.last().category == cat {
            assert(dirs[dirs.len() - 1].category == cat);
        }
    }
}

/// A sweep never takes a category that is for review, whatever was found and
/// whatever is held back.
pub proof fn a_sweep_never_takes_what_is_for_review(
    dirs: Seq<FoundDirView>,
    except: Seq<Seq<char>>,
)
    ensures
        !planned(dirs, except).contains(Category::PythonEnv),
        !planned(dirs, except).contains(Category::NextJs),
        !planned(dirs, except).contains(Category::Nuxt),
        !planned(dirs, except).contains(Category::SvelteKit),
        !planned(dirs, except).contains(Category::CocoaPods),
        !planned(dirs, except).contains(Category::XcodeDerivedData),
        !planned(dirs, except).contains(Category::IosSimulators),
        !planned(dirs, except).contains(Category::SimulatorRuntimes),
        !planned(dirs, except).contains(Category::IphoneBackups),
        !planned(dirs, except).contains(Category::ExpensiveCache),
        !planned(dirs, except).contains(Category::CloudMirror),
        !planned(dirs, except).contains(Category::WindowsOld),
        !planned(dirs, except).contains(Category::InstallerCache),
        !planned(dirs, except).contains(Category::DockerData),
        !planned(dirs, except).contains(Category::AndroidSdk),
        !planned(dirs, except).contains(Category::AndroidEmulator),
{
    a_sweep_takes_exactly_what_is_safe(dirs, except);
    let plan = planned(dirs, except);
    assert(plan.contains(Category::PythonEnv) ==> Category::PythonEnv.is_regenerable());
    assert(plan.contains(Category::NextJs) ==> Category::NextJs.is_regenerable());
    assert(plan.contains(Category::Nuxt) ==> Category::Nuxt.is_regenerable());
    assert(plan.contains(Category::SvelteKit) ==> Category::SvelteKit.is_regenerable());
    assert(plan.contains(Category::CocoaPods) ==> Category::CocoaPods.is_regenerable());
    assert(plan.contains(Category::XcodeDerivedData) ==> Category::XcodeDerivedData.is_regenerable());
    assert(plan.contains(Category::IosSimulators) ==> Category::IosSimulators.is_regenerable());
    assert(plan.contains(Category::SimulatorRuntimes) ==> Category::SimulatorRuntimes.is_regenerable());
    assert(plan.contains(Category::IphoneBackups) ==> Category::IphoneBackups.is_regenerable());
    assert(plan.contains(Category::ExpensiveCache) ==> Category::ExpensiveCache.is_regenerable());
    assert(plan.contains(Category::CloudMirror) ==> Category::CloudMirror.is_regenerable());
    assert(plan.contains(Category::WindowsOld) ==> Category::WindowsOld.is_regenerable());
    assert(plan.contains(Category::InstallerCache) ==> Category::InstallerCache.is_regenerable());
    assert(plan.contains(Category::DockerData) ==> Category::DockerData.is_regenerable());
    assert(plan.contains(Category::AndroidSdk) ==> Category::AndroidSdk.is_regenerable());
    assert(plan.contains(Category::AndroidEmulator) ==> Category::AndroidEmulator.is_regenerable());
}

/// A sweep takes every other category of which a directory was found, unless
/// its name is among those held back, and nothing that was not found.
pub proof fn a_sweep_takes_all_that_comes_back(
    dirs: Seq<FoundDirView>,
    except: Seq<Seq<char>>,
    cat: Category,
)
    requires
        !(cat == Category::PythonEnv
            || cat == Category::NextJs
            || cat == Category::Nuxt
            || cat == Category::SvelteKit
            || cat == Category::CocoaPods
            || cat == Category::XcodeDerivedData
            || cat == Category::IosSimulators
            || cat == Category::SimulatorRuntimes
            || cat == Category::IphoneBackups
            || cat == Category::ExpensiveCache
            || cat == Category::CloudMirror
            || cat == Category::WindowsOld
            || cat == Category::InstallerCache
            || cat == Category::DockerData
            || cat == Category::AndroidSdk
            || cat == Category::AndroidEmulator),
    ensures
        planned(dirs, except).contains(cat) <==> (exists|i: int|
            0 <= i < dirs.len() && (#[trigger] dirs[i]).category == cat) && !except.contains(
            cat.slug_text(),
        ),
{
    a_sweep_takes_exactly_what_is_safe(dirs, except);
    lemma_found(dirs, cat);
    assert(cat.is_regenerable());
    let plan = planned(dirs, except);
    assert(plan.contains(cat) <==> cat.is_regenerable() && ranked_dirs(dirs, cat).len() > 0
        && !except.contains(cat.slug_text()));
}

proof fn lemma_dirs_of_all(dirs: Seq<FoundDirView>, cats: Seq<Category>, i: int)
    requires
        0 <= i < dirs.len(),
        cats.contains(dirs[i].category),
    ensures
        dirs_of(dirs, cats).contains(dirs[i]),
    decreases cats.len(),
{
    let d = dirs[i];
    let front = dirs_of(dirs, cats.drop_last());
    let ranked = ranked_dirs(dirs, cats.last());
    let all = dirs_of(dirs, cats);
    let n = choose|n: int| 0 <= n < cats.len() && cats[n] == d.category;
    if n < cats.len() - 1 {
        assert(cats.drop_last()[n] == d.category);
        lemma_dirs_of_all(dirs, cats.drop_last(), i);
        let k = choose|k: int| 0 <= k < front.len() && front[k] == d;
        assert(all[k] == d);
    } else {
        let own = of_category(dirs, d.category);
        lemma_own(dirs, i);
        lemma_in_order::<FoundDir>(own);
        assert(own.contains(d));
        assert(ranked.contains(d));
        let k = choose|k: int| 0 <= k < ranked.len() && ranked[k] == d;
        assert(all[front.len() + k] == d);
    }
}

proof fn lemma_own(dirs: Seq<FoundDirView>, i: int)
    requires
        0 <= i < dirs.len(),
    ensures
        of_category(dirs, dirs[i].category).contains(dirs[i]),
    decreases dirs.len(),
{
    let cat = dirs[i].category;
    let front = of_category(dirs.drop_last(), cat);
    let all = of_category(dirs, cat);
    if i < dirs.len() - 1 {
        lemma_own(dirs.drop_last(), i);
        let k = choose|k: int| 0 <= k < front.len() && front[k] == dirs[i];
        assert(all[k] == dirs[i]);
    } else {
        assert(all[front.len() as int] == dirs[i]);
    }
}

/// Once a category is accepted, every directory that was found of it is going
/// to be removed.
pub proof fn all_of_an_accepted_category_is_removed(session: Session<'_>, i: int)
    requires
        session.wf(),
        0 <= i < session.result@.dirs.len(),
        session.accepted@.contains(session.result@.dirs[i].category),
    ensures
        exists|k: int|
            0 <= k < session.jobs@.len() && (#[trigger] session.jobs@[k])@
                == session.result@.dirs[i],
{
    let dirs = session.result@.dirs;
    let jobs = views(session.jobs@);
    lemma_dirs_of_all(dirs, session.accepted@, i);
    let k = choose|k: int| 0 <= k < jobs.len() && jobs[k] == dirs[i];
    assert(session.jobs@[k]@ == dirs[i]);
}

proof fn lemma_next_found(dirs: Seq<FoundDirView>, cats: Seq<Category>, at: nat)
    ensures
        at <= cats.len() ==> at <= next_found(dirs, cats, at) <= cats.len(),
        next_found(dirs, cats, at) < cats.len() ==> ranked_dirs(
            dirs,
            cats[next_found(dirs, cats, at) as int],
        ).len() > 0,
        forall|i: int|
            at <= i < next_found(dirs, cats, at) && i < cats.len() ==> ranked_dirs(
                dirs,
                #[trigger] cats[i],
            ).len() == 0,
    decreases cats.len() - at,
{
    if at < cats.len() && ranked_dirs(dirs, cats[at as int]).len() == 0 {
        lemma_next_found(dirs, cats, at + 1);
    }
}

/// A category is offered exactly when something of it was found: the one that
/// is offered holds a directory, and none that is passed over does.
pub proof fn only_empty_categories_are_passed_over(
    dirs: Seq<FoundDirView>,
    cats: Seq<Category>,
    at: nat,
    i: int,
)
    requires
        at <= cats.len(),
        0 <= i < dirs.len(),
    ensures
        forall|k: int|
            at <= k < next_found(dirs, cats, at) ==> #[trigger] cats[k] != dirs[i].category,
        next_found(dirs, cats, at) < cats.len() ==> exists|j: int|
            0 <= j < dirs.len() && (#[trigger] dirs[j]).category == cats[next_found(
                dirs,
                cats,
                at,
            ) as int],
{
    lemma_next_found(dirs, cats, at);
    let n = next_found(dirs, cats, at);
    assert forall|k: int| at <= k < n implies #[trigger] cats[k] != dirs[i].category by {
        lemma_found(dirs, cats[k]);
    }
    if n < cats.len() {
        lemma_found(dirs, cats[n as int]);
    }
}

/// A loose file is removed as one, a live directory is emptied, and everything
/// else goes with what is in it.
pub proof fn removal_fits_what_is_removed(is_file: bool, cat: Category)
    ensures
        is_file ==> method_for(is_file, cat) == Method::File,
        !is_file && (cat == Category::WindowsTemp
            || cat == Category::WindowsUpdate
            || cat == Category::RecycleBin
            || cat == Category::CrashDumps
            || cat == Category::WindowsCaches
            || cat == Category::ThumbnailCache
            || cat == Category::BrowserCache
            || cat == Category::AppWebCache
            || cat == Category::ContainerCaches
            || cat == Category::ExpensiveCache) ==> method_for(is_file, cat) == Method::Contents,
        !is_file && !(cat == Category::WindowsTemp
            || cat == Category::WindowsUpdate
            || cat == Category::RecycleBin
            || cat == Category::CrashDumps
            || cat == Category::WindowsCaches
            || cat == Category::ThumbnailCache
            || cat == Category::BrowserCache
            || cat == Category::AppWebCache
            || cat == Category::ContainerCaches
            || cat == Category::ExpensiveCache) ==> method_for(is_file, cat) == Method::Tree,
{
}

/// Only the letter y confirms, in either case and with white space round it.
pub proof fn only_y_means_yes(input: Seq<char>)
    ensures
        is_yes(input) <==> trimmed(input).len() == 1 && (trimmed(input)[0] == 'y' || trimmed(
            input,
        )[0] == 'Y'),
{
    reveal_strlit("y");
    let answer = trimmed(input);
    crate::text::case_is_that_of_ascii_letters(answer, "y"@);
    if answer.len() == 1 {
        assert(same_ignoring_case(answer, "y"@) <==> {
            ||| answer[0] == 'y'
            ||| answer[0] == 'Y'
        });
    }
}

/// The first exception that is no category is named, beside those that there are.
pub proof fn the_first_typo_is_named(except: Seq<Seq<char>>, i: int)
    requires
        0 <= i < except.len(),
        forall|cat: Category| #[trigger] cat.slug_text() != except[i],
        forall|k: int|
            0 <= k < i ==> exists|cat: Category| #[trigger] cat.slug_text() == #[trigger] except[k],
    ensures
        unknown_name(except) == Some(except[i]),
    decreases except.len(),
{
    if i > 0 {
        let rest = except.drop_first();
        assert(except[0] == except[0]);
        assert(is_slug(except[0]));
        assert forall|k: int| 0 <= k < i - 1 implies exists|cat: Category| #[trigger]
            cat.slug_text() == #[trigger] rest[k] by {
            assert(rest[k] == except[k + 1]);
        }
        the_first_typo_is_named(rest, i - 1);
    }
}

/// The message on a typo quotes it and lists what may be named, with commas
/// between.
pub proof fn a_typo_is_answered_with_what_there_is(name: Seq<char>, cats: Seq<Category>)
    ensures
        unknown_message(name, slugs(cats)) == "unknown category '"@ + name
            + "'.\n  Deletable categories in this scan: "@ + joined(slugs(cats), ", "@),
        slugs(cats).len() == cats.len(),
        forall|i: int|
            0 <= i < cats.len() ==> #[trigger] slugs(cats)[i] == cats[i].slug_text(),
{
}

/// Every entry that could not be removed counts once, and no other does.
pub proof fn entries_left_behind_are_counted(removed: Seq<bool>)
    ensures
        left_behind(Seq::empty()) == 0,
        left_behind(removed.push(true)) == left_behind(removed),
        left_behind(removed.push(false)) == left_behind(removed) + 1,
{
    assert(removed.push(true).drop_last() =~= removed);
    assert(removed.push(false).drop_last() =~= removed);
}

/// A directory that is gone gave back all that it held; one that is still there,
/// what it no longer holds.
pub proof fn what_is_left_does_not_count(size: u64, left: u64)
    ensures
        reclaimed(size, left_over(None)) == size,
        left <= size ==> reclaimed(size, left_over(Some(left))) == size - left,
        left > size ==> reclaimed(size, left_over(Some(left))) == 0,
{
}

/// A removal is reported as done, as partial where it failed but gave something
/// back, and as an error where it gave nothing back.
pub proof fn a_removal_is_reported_as_it_went(
    dir: FoundDirView,
    freed: u64,
    why: Seq<char>,
    viewer: ViewerView,
    indent: Seq<char>,
)
    ensures
        ({
            let said = removal_message(dir, freed, None, viewer, indent);
            &&& !said.is_error
            &&& said.line == seq![
                plain(indent),
                styled("deleted"@, Style::Red),
                plain(" "@),
                styled(path_text(dir.path, viewer.home, viewer.sep), Style::Dimmed),
            ]
        }),
        freed > 0 ==> ({
            let said = removal_message(dir, freed, Some(why), viewer, indent);
            &&& !said.is_error
            &&& said.line == seq![
                plain(indent),
                styled("partial"@, Style::Yellow),
                plain(" "@),
                styled(path_text(dir.path, viewer.home, viewer.sep), Style::Dimmed),
                plain(" -- "@ + size_text(freed as nat) + " freed, "@ + why),
            ]
        }),
        freed == 0 ==> ({
            let said = removal_message(dir, freed, Some(why), viewer, indent);
            &&& said.is_error
            &&& said.line == seq![
                plain(indent),
                styled("error"@, Style::Yellow),
                plain(" "@ + dir.path.text() + ": "@ + why),
            ]
        }),
{
}

/// Before a category goes, all of its directories are named under their number and
/// their total; where there are none, that is said.
pub proof fn a_category_is_announced_in_full(
    dirs: Seq<FoundDirView>,
    cat: Category,
    viewer: ViewerView,
)
    ensures
        ({
            let said = category_intro(dirs, cat, viewer);
            let ranked = ranked_dirs(dirs, cat);
            &&& ranked.len() == 0 ==> said == seq![
                seq![plain("No "@ + cat.label_text() + " found."@)],
            ]
            &&& ranked.len() > 0 ==> {
                &&& said.len() == 2 + ranked.len()
                &&& said[0].len() == 0
                &&& said[1] == seq![
                    plain("  "@ + decimal(ranked.len()) + " "@ + cat.label_text() + "  ("@),
                    styled(size_text(category_size(dirs, cat)), Style::Bold),
                    plain(")"@),
                ]
                &&& forall|i: int|
                    0 <= i < ranked.len() ==> #[trigger] said[2 + i] == seq![
                        plain("    "@),
                        styled(path_text(ranked[i].path, viewer.home, viewer.sep), Style::Dimmed),
                    ]
            }
        }),
{
    let said = category_intro(dirs, cat, viewer);
    let ranked = ranked_dirs(dirs, cat);
    assert forall|i: int| 0 <= i < ranked.len() implies #[trigger] said[2 + i] == seq![
        plain("    "@),
        styled(path_text(ranked[i].path, viewer.home, viewer.sep), Style::Dimmed),
    ] by {
        assert(said[2 + i] == path_line(ranked[i], viewer));
    }
}

/// An offer names a category, its total and its five largest directories, says how
/// many more there are, whether it is safe, and whether the directories stay.
pub proof fn an_offer_names_five_directories(
    dirs: Seq<FoundDirView>,
    cat: Category,
    viewer: ViewerView,
    i: int,
)
    ensures
        ({
            let said = offer_lines(dirs, cat, viewer);
            let ranked = ranked_dirs(dirs, cat);
            let shown: int = if ranked.len() > 5 {
                6
            } else {
                ranked.len() as int
            };
            let stays: int = if cat.keeps_directory() {
                1
            } else {
                0
            };
            &&& said.len() == 2 + shown + stays
            &&& said[0].len() == 0
            &&& said[1] == seq![
                plain("  "@),
                styled(cat.label_text(), Style::BoldCyan),
                plain(" -- "@),
                styled(size_text(category_size(dirs, cat)), Style::Bold),
                if cat.is_regenerable() {
                    styled(" [safe to delete]"@, Style::Green)
                } else {
                    styled(" [review carefully]"@, Style::Yellow)
                },
            ]
            &&& 0 <= i < ranked.len() && i < 5 ==> said[2 + i] == seq![
                plain("    "@),
                styled(path_text(ranked[i].path, viewer.home, viewer.sep), Style::Dimmed),
            ]
            &&& ranked.len() > 5 ==> said[7] == seq![
                plain("    ... and "@ + decimal((ranked.len() - 5) as nat) + " more"@),
            ]
            &&& cat.keeps_directory() ==> said.last() == seq![
                plain("    "@),
                styled("(contents are cleared; the directory itself stays)"@, Style::Dimmed),
            ]
        }),
{
    let said = offer_lines(dirs, cat, viewer);
    let ranked = ranked_dirs(dirs, cat);
    if 0 <= i < ranked.len() && i < 5 {
        assert(said[2 + i] == path_line(ranked[i], viewer));
    }
}

/// Before a sweep every exception is named, then every category with its total,
/// the number of its directories and the name that holds it back, then the sum.
pub proof fn a_sweep_is_announced_in_full(
    dirs: Seq<FoundDirView>,
    cats: Seq<Category>,
    except: Seq<Seq<char>>,
    i: int,
)
    ensures
        ({
            let said = sweep_lines(dirs, cats, except);
            let n = except.len() as int;
            &&& cats.len() == 0 ==> said == seq![seq![plain("Nothing regenerable found."@)]]
            &&& cats.len() > 0 ==> {
                &&& said.len() == n + 3 + cats.len()
                &&& 0 <= i < n ==> said[i] == seq![
                    plain("  "@),
                    styled("excluded:"@, Style::Yellow),
                    plain(" "@ + except[i]),
                ]
                &&& said[n].len() == 0
                &&& said[n + 1] == seq![
                    plain("  "@),
                    styled("About to delete these categories:"@, Style::Bold),
                ]
                &&& 0 <= i < cats.len() ==> ({
                    let found = ranked_dirs(dirs, cats[i]).len();
                    said[n + 2 + i] == seq![
                        plain("    "@),
                        styled(pad_right(cats[i].label_text(), 28), Style::Cyan),
                        plain(
                            " "@ + pad_left(size_text(category_size(dirs, cats[i])), 9) + "  ("@
                                + decimal(found) + " "@ + if found == 1 {
                                "dir"@
                            } else {
                                "dirs"@
                            } + ", --except "@,
                        ),
                        styled(cats[i].slug_text(), Style::Dimmed),
                        plain(")"@),
                    ]
                })
                &&& said.last() == seq![
                    plain("    "@),
                    styled(pad_right("TOTAL"@, 28), Style::Bold),
                    plain(" "@),
                    styled(pad_left(size_text(categories_size(dirs, cats)), 9), Style::Bold),
                ]
            }
        }),
{
    let said = sweep_lines(dirs, cats, except);
    let n = except.len() as int;
    if cats.len() > 0 {
        if 0 <= i < n {
            assert(said[i] == excluded_lines(except)[i]);
        }
        if 0 <= i < cats.len() {
            assert(said[n + 2 + i] == preview_line(dirs, cats[i]));
        }
    }
}

/// What is asked and said round a removal.
pub proof fn a_deletion_asks_and_sums_up(cat: Category, freed: u64)
    ensures
        sweep_question() == seq![
            plain("  Delete all of it? ["@),
            styled("y"@, Style::Green),
            plain("/N] "@),
        ],
        removing_line(cat) == seq![plain("  "@), styled(cat.label_text(), Style::BoldCyan)],
        total_freed_line(freed) == seq![
            plain("  Total freed: "@),
            styled(size_text(freed as nat), Style::BoldGreen),
        ],
        freed_line(freed) == seq![
            plain("  "@),
            styled(size_text(freed as nat), Style::BoldGreen),
            plain(" freed."@),
        ],
{
}

} // verus!
