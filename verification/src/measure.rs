//! How much space files really take.

use std::collections::HashSet;

use vstd::prelude::*;
use vstd::utf8::is_ascii_chars;

use crate::clock::{older_than, Timestamp};
use crate::found::{FoundFile, FoundFileView};
use crate::path::{path_extension, FsPath, PathView};
use crate::text::{ascii_lower, one_of, views};

verus! {

broadcast use {crate::text::lemma_views_push, vstd::std_specs::hash::group_hash_axioms};

/// A file as far as space is concerned.
#[derive(Debug, Clone, Copy)]
pub struct Measured {
    /// The bytes that it occupies.
    pub size: u64,
    /// False for a file that reports a size but holds no local blocks.
    pub local: bool,
    /// The device and number of the allocation, where more than one name
    /// shares it.
    pub link: Option<(u64, u64)>,
    pub modified: Option<Timestamp>,
}

// ---------------------------------------------------------------------------
// Directories
// ---------------------------------------------------------------------------

/// One of the first `n` files is a name of the allocation `id`.
pub open spec fn link_seen(files: Seq<Measured>, n: int, id: (u64, u64)) -> bool {
    exists|j: int| 0 <= j < n && (#[trigger] files[j]).local && files[j].link == Some(id)
}

/// File `i` counts: its bytes are here, and no earlier name stands for them.
pub open spec fn counts(files: Seq<Measured>, i: int) -> bool {
    &&& files[i].local
    &&& files[i].link matches Some(id) ==> !link_seen(files, i, id)
}

/// The bytes of the files that count.
pub open spec fn stats_size(files: Seq<Measured>) -> nat
    decreases files.len(),
{
    if files.len() == 0 {
        0
    } else {
        stats_size(files.drop_last()) + if counts(files, files.len() - 1) {
            files.last().size as nat
        } else {
            0
        }
    }
}

/// The latest modification among the files that count, or the epoch.
pub open spec fn stats_newest(files: Seq<Measured>) -> Timestamp
    decreases files.len(),
{
    if files.len() == 0 {
        Timestamp { nanos: 0 }
    } else {
        let newest = stats_newest(files.drop_last());
        match files.last().modified {
            Some(t) => if counts(files, files.len() - 1) && t.nanos > newest.nanos {
                t
            } else {
                newest
            },
            None => newest,
        }
    }
}

spec fn link_key(id: (u64, u64)) -> u128 {
    (id.0 * 0x1_0000_0000_0000_0000 + id.1) as u128
}

proof fn lemma_link_key(a: (u64, u64), b: (u64, u64))
    ensures
        link_key(a) == a.0 * 0x1_0000_0000_0000_0000 + a.1,
        link_key(a) == link_key(b) ==> a == b,
{
}

proof fn lemma_link_seen_next(files: Seq<Measured>, n: int, id: (u64, u64))
    requires
        0 <= n < files.len(),
    ensures
        link_seen(files, n + 1, id) == (link_seen(files, n, id) || (files[n].local && files[n].link
            == Some(id))),
        link_seen(files.take(n + 1), n, id) == link_seen(files, n, id),
{
    let front = files.take(n + 1);
    if link_seen(files, n, id) {
        let j = choose|j: int|
            0 <= j < n && (#[trigger] files[j]).local && files[j].link == Some(id);
        assert(files[j].local);
        assert(front[j].local);
    }
    if link_seen(files, n + 1, id) {
        let j = choose|j: int|
            0 <= j < n + 1 && (#[trigger] files[j]).local && files[j].link == Some(id);
        assert(files[j].local);
    }
    if link_seen(front, n, id) {
        let j = choose|j: int|
            0 <= j < n && (#[trigger] front[j]).local && front[j].link == Some(id);
        assert(files[j].local);
    }
}

proof fn lemma_stats_size_front(files: Seq<Measured>, n: int)
    requires
        0 <= n <= files.len(),
    ensures
        stats_size(files.take(n)) <= stats_size(files),
    decreases files.len(),
{
    if n < files.len() {
        lemma_stats_size_front(files.drop_last(), n);
        assert(files.drop_last().take(n) =~= files.take(n));
    } else {
        assert(files.take(n) =~= files);
    }
}

/// Total size and most recent modification of the files of a directory tree.
/// Hard links are counted once per tree, so a blob linked from two targets is
/// still counted twice; nothing observed links across targets.
pub fn dir_stats(files: &Vec<Measured>) -> (r: (u64, Timestamp))
    requires
        stats_size(files@) <= u64::MAX,
    ensures
        r.0 == stats_size(files@),
        r.1 == stats_newest(files@),
{
    let mut size: u64 = 0;
    let mut newest = Timestamp::unix_epoch();
    let mut linked: HashSet<u128> = HashSet::new();
    let ghost all = files@;
    let mut i: usize = 0;
    while i < files.len()
        invariant
            i <= files.len(),
            all == files@,
            stats_size(all) <= u64::MAX,
            size == stats_size(all.take(i as int)),
            newest == stats_newest(all.take(i as int)),
            forall|id: (u64, u64)|
                #[trigger] linked@.contains(link_key(id)) <==> link_seen(all, i as int, id),
        decreases files.len() - i,
    {
        let file = files[i];
        let ghost front = all.take(i as int);
        let ghost more = all.take(i + 1);
        let ghost before = linked@;
        proof {
            lemma_stats_size_front(all, i + 1);
            assert(more.drop_last() =~= front);
        }
        let mut fresh = true;
        if file.local {
            if let Some((dev, ino)) = file.link {
                let key: u128 = dev as u128 * 0x1_0000_0000_0000_0000 + ino as u128;
                proof {
                    lemma_link_key((dev, ino), (dev, ino));
                    lemma_link_seen_next(all, i as int, (dev, ino));
                    assert(before.contains(link_key((dev, ino))) <==> link_seen(
                        all,
                        i as int,
                        (dev, ino),
                    ));
                }
                fresh = linked.insert(key);
            }
        }
        proof {
            assert forall|id: (u64, u64)|
                #[trigger] linked@.contains(link_key(id)) <==> link_seen(all, i + 1, id) by {
                lemma_link_seen_next(all, i as int, id);
                assert(before.contains(link_key(id)) <==> link_seen(all, i as int, id));
                if file.local && file.link is Some {
                    lemma_link_key(id, file.link->0);
                }
            }
            assert(counts(more, i as int) == (file.local && fresh));
        }
        if file.local && fresh {
            size = size + file.size;
            if let Some(modified) = file.modified {
                if modified.later_than(&newest) {
                    newest = modified;
                }
            }
        }
        i = i + 1;
    }
    assert(all.take(all.len() as int) =~= all);
    (size, newest)
}

/// One more name of an allocation that was counted adds nothing.
pub proof fn a_further_hard_link_adds_nothing(files: Seq<Measured>, link: Measured, id: (u64, u64))
    requires
        link.link == Some(id),
        link_seen(files, files.len() as int, id),
    ensures
        stats_size(files.push(link)) == stats_size(files),
        stats_newest(files.push(link)) == stats_newest(files),
{
    let more = files.push(link);
    assert(more.drop_last() =~= files);
    let j = choose|j: int|
        0 <= j < files.len() && (#[trigger] files[j]).local && files[j].link == Some(id);
    assert(more[j] == files[j]);
    assert(link_seen(more, more.len() - 1, id));
}

/// A placeholder, whose bytes lie elsewhere, adds nothing.
pub proof fn a_placeholder_adds_nothing(files: Seq<Measured>, stub: Measured)
    requires
        !stub.local,
    ensures
        stats_size(files.push(stub)) == stats_size(files),
        stats_newest(files.push(stub)) == stats_newest(files),
{
    assert(files.push(stub).drop_last() =~= files);
}

/// A file under one name only adds what it occupies.
pub proof fn an_ordinary_file_adds_its_size(files: Seq<Measured>, file: Measured)
    requires
        file.local,
        file.link is None,
    ensures
        stats_size(files.push(file)) == stats_size(files) + file.size,
{
    assert(files.push(file).drop_last() =~= files);
}

// ---------------------------------------------------------------------------
// Single files
// ---------------------------------------------------------------------------

#[derive(Debug, Clone, Copy)]
pub struct FileLimits {
    /// The size from which a file is large.
    pub large: u64,
    /// The age from which a file is old, in seconds.
    pub old_after: u64,
    /// The size below which age does not matter.
    pub old_min: u64,
}

/// The extensions of forgotten installers and VM images.
pub open spec fn is_image_ext(ext: Seq<char>) -> bool {
    ||| ext == "dmg"@
    ||| ext == "iso"@
    ||| ext == "pkg"@
    ||| ext == "img"@
    ||| ext == "vhd"@
    ||| ext == "vhdx"@
    ||| ext == "vmdk"@
    ||| ext == "wim"@
    ||| ext == "esd"@
    ||| ext == "msi"@
    ||| ext == "msu"@
    ||| ext == "msix"@
    ||| ext == "msixbundle"@
    ||| ext == "appx"@
    ||| ext == "appxbundle"@
}

/// Extensions worth flagging as forgotten installers or VM images.
pub fn is_disk_image(ext: &str) -> (r: bool)
    ensures
        r == is_image_ext(ext@),
{
    let ext = ext.to_owned();
    let known: [&'static str; 15] = [
        "dmg",
        "iso",
        "pkg",
        "img",
        "vhd",
        "vhdx",
        "vmdk",
        "wim",
        "esd",
        "msi",
        "msu",
        "msix",
        "msixbundle",
        "appx",
        "appxbundle",
    ];
    let r = one_of(&ext, &known);
    proof {
        if is_image_ext(ext@) {
            assert(known@[0]@ == "dmg"@ && known@[1]@ == "iso"@ && known@[2]@ == "pkg"@);
            assert(known@[3]@ == "img"@ && known@[4]@ == "vhd"@ && known@[5]@ == "vhdx"@);
            assert(known@[6]@ == "vmdk"@ && known@[7]@ == "wim"@ && known@[8]@ == "esd"@);
            assert(known@[9]@ == "msi"@ && known@[10]@ == "msu"@ && known@[11]@ == "msix"@);
            assert(known@[12]@ == "msixbundle"@ && known@[13]@ == "appx"@);
            assert(known@[14]@ == "appxbundle"@);
        }
    }
    r
}

/// What `str::to_lowercase` makes of a text.
pub uninterp spec fn unicode_lowercase(s: Seq<char>) -> Seq<char>;

/// `str::to_lowercase`: the lower-case equivalent of the text by Unicode's
/// rules. Of ASCII text it is the same text with `A` to `Z` in lower case.
#[verifier::external_body]
fn lowercase(s: &str) -> (r: String)
    ensures
        r@ == unicode_lowercase(s@),
        is_ascii_chars(s@) ==> r@ == Seq::new(s@.len(), |i: int| ascii_lower(s@[i])),
{
    s.to_lowercase()
}

/// The file is a disk image by its extension, and not a tiny one.
pub open spec fn is_forgotten_image(path: PathView, size: u64) -> bool {
    &&& path_extension(path) matches Some(ext) && is_image_ext(unicode_lowercase(ext))
    &&& size > 1_048_576
}

/// The file is big enough to matter and has not been touched for long enough.
pub open spec fn is_stale(file: Measured, limits: FileLimits, now: Timestamp) -> bool {
    &&& file.size >= limits.old_min
    &&& older_than(modified_at(file), now, limits.old_after)
}

pub open spec fn modified_at(file: Measured) -> Timestamp {
    match file.modified {
        Some(t) => t,
        None => Timestamp { nanos: 0 },
    }
}

/// A list after one more file was looked at.
pub open spec fn noted(
    list: Seq<FoundFileView>,
    path: PathView,
    file: Measured,
    take: bool,
) -> Seq<FoundFileView> {
    if file.local && take {
        list.push(FoundFileView { path, size: file.size, modified: modified_at(file) })
    } else {
        list
    }
}

fn note(list: &mut Vec<FoundFile>, path: &FsPath, file: &Measured)
    requires
        file.local,
    ensures
        views(final(list)@) == noted(views(old(list)@), path@, *file, true),
{
    let modified = match file.modified {
        Some(t) => t,
        None => Timestamp::unix_epoch(),
    };
    let found = FoundFile { path: path.clone(), size: file.size, modified };
    assert(found@ == FoundFileView {
        path: path@,
        size: file.size,
        modified: modified_at(*file),
    });
    list.push(found);
}

/// Sorts one file into the lists that it belongs in.
pub fn check_file(
    path: &FsPath,
    file: &Measured,
    limits: &FileLimits,
    now: &Timestamp,
    large: &mut Vec<FoundFile>,
    stale: &mut Vec<FoundFile>,
    images: &mut Vec<FoundFile>,
)
    ensures
        views(final(images)@) == noted(
            views(old(images)@),
            path@,
            *file,
            is_forgotten_image(path@, file.size),
        ),
        views(final(large)@) == noted(
            views(old(large)@),
            path@,
            *file,
            file.size >= limits.large,
        ),
        views(final(stale)@) == noted(
            views(old(stale)@),
            path@,
            *file,
            is_stale(*file, *limits, *now),
        ),
{
    if !file.local {
        return;
    }
    if let Some(ext) = path.extension() {
        if is_disk_image(lowercase(ext.as_str()).as_str()) && file.size > 1_048_576 {
            note(images, path, file);
        }
    }
    if file.size >= limits.large {
        note(large, path, file);
    }
    let modified = match file.modified {
        Some(t) => t,
        None => Timestamp::unix_epoch(),
    };
    if file.size >= limits.old_min && modified.at_least_before(now, limits.old_after) {
        note(stale, path, file);
    }
}

// ---------------------------------------------------------------------------
// Laws
// ---------------------------------------------------------------------------

/// No bytes in no files, and each further file adds its own, unless they lie
/// elsewhere or an earlier name stands for them.
pub proof fn each_allocation_is_added_once(files: Seq<Measured>, file: Measured)
    ensures
        stats_size(Seq::empty()) == 0,
        stats_size(files.push(file)) == stats_size(files) + if file.local && (file.link is None
            || !exists|j: int|
            0 <= j < files.len() && (#[trigger] files[j]).local && files[j].link == file.link) {
            file.size as nat
        } else {
            0
        },
{
    let more = files.push(file);
    assert(more.drop_last() =~= files);
    if file.link is Some {
        let id = file.link->0;
        if link_seen(more, more.len() - 1, id) {
            let j = choose|j: int|
                0 <= j < more.len() - 1 && (#[trigger] more[j]).local && more[j].link == Some(id);
            assert(files[j].local && files[j].link == file.link);
        }
        if exists|j: int|
            0 <= j < files.len() && (#[trigger] files[j]).local && files[j].link == file.link {
            let j = choose|j: int|
                0 <= j < files.len() && (#[trigger] files[j]).local && files[j].link == file.link;
            assert(more[j].local && more[j].link == Some(id));
            assert(link_seen(more, more.len() - 1, id));
        }
    }
}

proof fn lemma_counts_in_front(files: Seq<Measured>, i: int)
    requires
        0 <= i < files.len() - 1,
    ensures
        counts(files.drop_last(), i) == counts(files, i),
{
    let front = files.drop_last();
    if files[i].link is Some {
        let id = files[i].link->0;
        if link_seen(front, i, id) {
            let j = choose|j: int|
                0 <= j < i && (#[trigger] front[j]).local && front[j].link == Some(id);
            assert(files[j].local && files[j].link == Some(id));
        }
        if link_seen(files, i, id) {
            let j = choose|j: int|
                0 <= j < i && (#[trigger] files[j]).local && files[j].link == Some(id);
            assert(front[j].local && front[j].link == Some(id));
        }
    }
}

proof fn lemma_newest_bounds(files: Seq<Measured>, i: int)
    requires
        0 <= i < files.len(),
        counts(files, i),
        files[i].modified is Some,
    ensures
        stats_newest(files).nanos >= files[i].modified->0.nanos,
    decreases files.len(),
{
    if i < files.len() - 1 {
        lemma_counts_in_front(files, i);
        lemma_newest_bounds(files.drop_last(), i);
    }
}

proof fn lemma_newest_origin(files: Seq<Measured>)
    ensures
        stats_newest(files).nanos >= 0,
        stats_newest(files).nanos != 0 ==> exists|i: int|
            0 <= i < files.len() && #[trigger] counts(files, i) && files[i].modified == Some(
                stats_newest(files),
            ),
    decreases files.len(),
{
    if files.len() > 0 {
        let front = files.drop_last();
        let last = files.len() - 1;
        lemma_newest_origin(front);
        if stats_newest(files).nanos != 0 {
            if stats_newest(files) == stats_newest(front) {
                let i = choose|i: int|
                    0 <= i < front.len() && #[trigger] counts(front, i) && front[i].modified == Some(
                        stats_newest(front),
                    );
                lemma_counts_in_front(files, i);
                assert(counts(files, i));
            } else {
                assert(counts(files, last));
            }
        }
    }
}

/// A directory is as recent as the most recent of its files: no file that
/// counts was modified later, and one was modified just then, or none since the
/// epoch.
pub proof fn the_newest_file_dates_the_directory(files: Seq<Measured>, i: int, t: Timestamp)
    requires
        0 <= i < files.len(),
        files[i].local,
        files[i].link is Some ==> forall|j: int|
            0 <= j < i && (#[trigger] files[j]).local ==> files[j].link != files[i].link,
        files[i].modified == Some(t),
    ensures
        t.nanos <= stats_newest(files).nanos,
        stats_newest(files).nanos >= 0,
        stats_newest(files).nanos > 0 ==> exists|k: int|
            0 <= k < files.len() && (#[trigger] files[k]).local && files[k].modified == Some(
                stats_newest(files),
            ),
        stats_newest(files).nanos > 0 || t.nanos <= 0,
{
    assert(counts(files, i));
    lemma_newest_bounds(files, i);
    lemma_newest_origin(files);
    if stats_newest(files).nanos > 0 {
        let k = choose|k: int|
            0 <= k < files.len() && #[trigger] counts(files, k) && files[k].modified == Some(
                stats_newest(files),
            );
        assert(files[k].local);
    }
}

/// A directory in which nothing counts is as old as the epoch.
pub proof fn an_undated_directory_is_as_old_as_the_epoch(files: Seq<Measured>)
    requires
        forall|i: int| 0 <= i < files.len() ==> !(#[trigger] files[i]).local || files[i].modified is None,
    ensures
        stats_newest(files).nanos == 0,
{
    lemma_newest_origin(files);
}

/// The names of one allocation agree on its size and age, as they do on a disk.
pub open spec fn names_agree(files: Seq<Measured>) -> bool {
    forall|i: int, j: int|
        0 <= i < files.len() && 0 <= j < files.len() && (#[trigger] files[i]).local && (
        #[trigger] files[j]).local && files[i].link is Some && files[i].link == files[j].link
            ==> files[i].size == files[j].size && files[i].modified == files[j].modified
}

proof fn lemma_first_name(files: Seq<Measured>, n: int, id: (u64, u64)) -> (first: int)
    requires
        0 <= n <= files.len(),
        link_seen(files, n, id),
    ensures
        0 <= first < n,
        files[first].link == Some(id),
        counts(files, first),
    decreases n,
{
    let j = choose|j: int| 0 <= j < n && (#[trigger] files[j]).local && files[j].link == Some(id);
    if link_seen(files, j, id) {
        lemma_first_name(files, j, id)
    } else {
        assert(counts(files, j));
        j
    }
}

proof fn lemma_newest_of_local(files: Seq<Measured>, i: int)
    requires
        names_agree(files),
        0 <= i < files.len(),
        files[i].local,
        files[i].modified is Some,
    ensures
        stats_newest(files).nanos >= files[i].modified->0.nanos,
{
    if counts(files, i) {
        lemma_newest_bounds(files, i);
    } else {
        let id = files[i].link->0;
        let first = lemma_first_name(files, i, id);
        assert(files[first].local && files[i].local && files[first].link == files[i].link);
        lemma_newest_bounds(files, first);
    }
}

/// Another file that is this one by position.
spec fn has_twin(files: Seq<Measured>, i: int) -> bool {
    exists|j: int|
        0 <= j < files.len() && j != i && (#[trigger] files[j]).local && files[j].link
            == files[i].link
}

/// What a file adds to those around it.
spec fn share(files: Seq<Measured>, i: int) -> nat {
    if files[i].local && (files[i].link is None || !has_twin(files, i)) {
        files[i].size as nat
    } else {
        0
    }
}

proof fn lemma_names_agree_without(files: Seq<Measured>, i: int)
    requires
        names_agree(files),
        0 <= i < files.len(),
    ensures
        names_agree(files.remove(i)),
{
    let rest = files.remove(i);
    assert forall|a: int, b: int|
        0 <= a < rest.len() && 0 <= b < rest.len() && (#[trigger] rest[a]).local && (
        #[trigger] rest[b]).local && rest[a].link is Some && rest[a].link == rest[b].link implies
        rest[a].size == rest[b].size && rest[a].modified == rest[b].modified by {
        let x = if a < i { a } else { a + 1 };
        let y = if b < i { b } else { b + 1 };
        assert(files[x] == rest[a] && files[y] == rest[b]);
    }
}

proof fn lemma_size_without(files: Seq<Measured>, i: int)
    requires
        names_agree(files),
        0 <= i < files.len(),
    ensures
        stats_size(files) == stats_size(files.remove(i)) + share(files, i),
    decreases files.len(),
{
    let last = files.len() - 1;
    let front = files.drop_last();
    let file = files[last];
    each_allocation_is_added_once(front, file);
    assert(front.push(file) =~= files);
    if i == last {
        assert(files.remove(i) =~= front);
        if has_twin(files, i) {
            let j = choose|j: int|
                0 <= j < files.len() && j != i && (#[trigger] files[j]).local && files[j].link
                    == files[i].link;
            assert(front[j].local && front[j].link == file.link);
        }
        if exists|j: int|
            0 <= j < front.len() && (#[trigger] front[j]).local && front[j].link == file.link {
            let j = choose|j: int|
                0 <= j < front.len() && (#[trigger] front[j]).local && front[j].link == file.link;
            assert(files[j].local && files[j].link == files[i].link);
        }
    } else {
        let less = front.remove(i);
        assert(files.remove(i) =~= less.push(file));
        assert(files.remove(last) =~= front);
        lemma_names_agree_without(files, last);
        lemma_size_without(front, i);
        each_allocation_is_added_once(less, file);
        lemma_shares(files, i);
    }
}

/// Whether the last file counts, and what file `i` adds, depend on each other
/// only where they are two names of one allocation.
proof fn lemma_shares(files: Seq<Measured>, i: int)
    requires
        names_agree(files),
        0 <= i < files.len() - 1,
    ensures
        ({
            let front = files.drop_last();
            let file = files.last();
            let less = front.remove(i);
            let fresh = file.local && (file.link is None || !exists|j: int|
                0 <= j < front.len() && (#[trigger] front[j]).local && front[j].link == file.link);
            let fresh_without = file.local && (file.link is None || !exists|j: int|
                0 <= j < less.len() && (#[trigger] less[j]).local && less[j].link == file.link);
            share(front, i) + (if fresh {
                file.size as nat
            } else {
                0
            }) == share(files, i) + (if fresh_without {
                file.size as nat
            } else {
                0
            })
        }),
{
    let front = files.drop_last();
    let last = files.len() - 1;
    let file = files.last();
    let less = front.remove(i);
    let other = exists|j: int|
        0 <= j < front.len() && j != i && (#[trigger] front[j]).local && front[j].link == file.link;
    let in_front = exists|j: int|
        0 <= j < front.len() && (#[trigger] front[j]).local && front[j].link == file.link;
    let in_less = exists|j: int|
        0 <= j < less.len() && (#[trigger] less[j]).local && less[j].link == file.link;
    assert(in_less == other) by {
        if other {
            let j = choose|j: int|
                0 <= j < front.len() && j != i && (#[trigger] front[j]).local && front[j].link
                    == file.link;
            let k = if j < i { j } else { j - 1 };
            assert(less[k] == front[j]);
        }
        if in_less {
            let k = choose|k: int|
                0 <= k < less.len() && (#[trigger] less[k]).local && less[k].link == file.link;
            let j = if k < i { k } else { k + 1 };
            assert(front[j] == less[k]);
        }
    }
    let same = files[i].local && files[i].link == file.link;
    assert(in_front == (other || same)) by {
        if other {
            let j = choose|j: int|
                0 <= j < front.len() && j != i && (#[trigger] front[j]).local && front[j].link
                    == file.link;
            assert(front[j].local);
        }
        if same {
            assert(front[i].local && front[i].link == file.link);
        }
        if in_front {
            let j = choose|j: int|
                0 <= j < front.len() && (#[trigger] front[j]).local && front[j].link == file.link;
            if j == i {
                assert(same);
            } else {
                assert(front[j].local);
            }
        }
    }
    assert(has_twin(files, i) == (has_twin(front, i) || (file.local && file.link
        == files[i].link))) by {
        if has_twin(files, i) {
            let j = choose|j: int|
                0 <= j < files.len() && j != i && (#[trigger] files[j]).local && files[j].link
                    == files[i].link;
            if j < last {
                assert(front[j] == files[j]);
            }
        }
        if has_twin(front, i) {
            let j = choose|j: int|
                0 <= j < front.len() && j != i && (#[trigger] front[j]).local && front[j].link
                    == front[i].link;
            assert(files[j] == front[j]);
        }
        if file.local && file.link == files[i].link {
            assert(files[last].local && files[last].link == files[i].link);
        }
    }
    if same && file.local && file.link is Some {
        assert(has_twin(front, i) == other) by {
            if has_twin(front, i) {
                let j = choose|j: int|
                    0 <= j < front.len() && j != i && (#[trigger] front[j]).local && front[j].link
                        == front[i].link;
                assert(front[j].local);
            }
            if other {
                let j = choose|j: int|
                    0 <= j < front.len() && j != i && (#[trigger] front[j]).local && front[j].link
                        == file.link;
                assert(front[j].local && front[j].link == front[i].link);
            }
        }
        assert(files[i].local && files[last].local);
        assert(files[i].size == file.size);
    }
}

proof fn lemma_shuffled_agree(files: Seq<Measured>, shuffled: Seq<Measured>)
    requires
        names_agree(files),
        files.to_multiset() == shuffled.to_multiset(),
    ensures
        names_agree(shuffled),
{
    assert forall|a: int, b: int|
        0 <= a < shuffled.len() && 0 <= b < shuffled.len() && (#[trigger] shuffled[a]).local && (
        #[trigger] shuffled[b]).local && shuffled[a].link is Some && shuffled[a].link
            == shuffled[b].link implies shuffled[a].size == shuffled[b].size
        && shuffled[a].modified == shuffled[b].modified by {
        let x = lemma_shuffled_at(shuffled, files, a);
        let y = lemma_shuffled_at(shuffled, files, b);
        assert(files[x].local && files[y].local);
    }
}

proof fn lemma_shuffled_at(a: Seq<Measured>, b: Seq<Measured>, i: int) -> (k: int)
    requires
        a.to_multiset() == b.to_multiset(),
        0 <= i < a.len(),
    ensures
        0 <= k < b.len(),
        b[k] == a[i],
{
    a.to_multiset_ensures();
    b.to_multiset_ensures();
    assert(a.contains(a[i]));
    assert(a.to_multiset().count(a[i]) > 0);
    assert(b.contains(a[i]));
    choose|k: int| 0 <= k < b.len() && b[k] == a[i]
}

proof fn lemma_shuffled_size(a: Seq<Measured>, b: Seq<Measured>)
    requires
        names_agree(a),
        a.to_multiset() == b.to_multiset(),
    ensures
        stats_size(a) == stats_size(b),
    decreases a.len(),
{
    a.to_multiset_ensures();
    b.to_multiset_ensures();
    assert(a.len() == b.len());
    if a.len() == 0 {
        assert(a =~= b);
    } else {
        let last = a.len() - 1;
        let i = lemma_shuffled_at(a, b, last);
        let rest = a.remove(last);
        let other = b.remove(i);
        lemma_shuffled_agree(a, b);
        lemma_size_without(a, last);
        lemma_size_without(b, i);
        lemma_names_agree_without(a, last);
        assert(rest.to_multiset() =~= a.to_multiset().remove(a[last]));
        assert(other.to_multiset() =~= b.to_multiset().remove(b[i]));
        lemma_shuffled_size(rest, other);
        lemma_shuffled_twin(a, b, last, i);
        lemma_shuffled_twin(b, a, i, last);
    }
}

proof fn lemma_shuffled_twin(a: Seq<Measured>, b: Seq<Measured>, i: int, k: int)
    requires
        0 <= i < a.len(),
        0 <= k < b.len(),
        a[i] == b[k],
        a.remove(i).to_multiset() == b.remove(k).to_multiset(),
    ensures
        has_twin(a, i) ==> has_twin(b, k),
{
    if has_twin(a, i) {
        let j = choose|j: int|
            0 <= j < a.len() && j != i && (#[trigger] a[j]).local && a[j].link == a[i].link;
        let rest = a.remove(i);
        let other = b.remove(k);
        let m = if j < i { j } else { j - 1 };
        assert(rest[m] == a[j]);
        let n = lemma_shuffled_at(rest, other, m);
        let q = if n < k { n } else { n + 1 };
        assert(b[q] == other[n]);
        assert(b[q].local && b[q].link == b[k].link);
    }
}

/// The order in which the files of a directory are listed changes neither its
/// size nor its age.
pub proof fn the_order_of_files_does_not_matter(files: Seq<Measured>, shuffled: Seq<Measured>)
    requires
        names_agree(files),
        files.to_multiset() == shuffled.to_multiset(),
    ensures
        stats_size(files) == stats_size(shuffled),
        stats_newest(files) == stats_newest(shuffled),
{
    lemma_shuffled_size(files, shuffled);
    lemma_shuffled_agree(files, shuffled);
    lemma_shuffled_newest(files, shuffled);
    lemma_shuffled_newest(shuffled, files);
}

proof fn lemma_shuffled_newest(a: Seq<Measured>, b: Seq<Measured>)
    requires
        names_agree(b),
        a.to_multiset() == b.to_multiset(),
    ensures
        stats_newest(a).nanos <= stats_newest(b).nanos,
{
    lemma_newest_origin(a);
    lemma_newest_origin(b);
    if stats_newest(a).nanos != 0 {
        let i = choose|i: int|
            0 <= i < a.len() && #[trigger] counts(a, i) && a[i].modified == Some(stats_newest(a));
        let k = lemma_shuffled_at(a, b, i);
        lemma_newest_of_local(b, k);
    }
}

/// A file is a forgotten image exactly when it is larger than a megabyte and has
/// one of these extensions, in upper or lower case.
pub proof fn images_are_known_by_their_extension(path: PathView, size: u64, ext: Seq<char>)
    requires
        path_extension(path) == Some(ext),
    ensures
        is_forgotten_image(path, size) <==> size > 1_048_576 && (unicode_lowercase(ext) == "dmg"@
            || unicode_lowercase(ext) == "iso"@
            || unicode_lowercase(ext) == "pkg"@
            || unicode_lowercase(ext) == "img"@
            || unicode_lowercase(ext) == "vhd"@
            || unicode_lowercase(ext) == "vhdx"@
            || unicode_lowercase(ext) == "vmdk"@
            || unicode_lowercase(ext) == "wim"@
            || unicode_lowercase(ext) == "esd"@
            || unicode_lowercase(ext) == "msi"@
            || unicode_lowercase(ext) == "msu"@
            || unicode_lowercase(ext) == "msix"@
            || unicode_lowercase(ext) == "msixbundle"@
            || unicode_lowercase(ext) == "appx"@
            || unicode_lowercase(ext) == "appxbundle"@),
{
}

/// A file without an extension is no image.
pub proof fn nothing_else_is_an_image(path: PathView, size: u64)
    requires
        path_extension(path) is None,
    ensures
        !is_forgotten_image(path, size),
{
}

/// A file is stale when it is large enough and at least so many seconds old; one
/// that cannot be dated is as old as the epoch.
pub proof fn a_stale_file_is_old_and_large(file: Measured, limits: FileLimits, now: Timestamp)
    ensures
        file.modified matches Some(t) ==> (is_stale(file, limits, now) <==> file.size
            >= limits.old_min && t.nanos + limits.old_after * 1_000_000_000 <= now.nanos),
        file.modified is None ==> (is_stale(file, limits, now) <==> file.size >= limits.old_min
            && limits.old_after * 1_000_000_000 <= now.nanos),
{
}

/// A file is noted with its path, its size and its age, behind those that are
/// there, where it is wanted and its bytes are here; otherwise nothing changes.
pub proof fn a_wanted_file_is_noted(
    list: Seq<FoundFileView>,
    path: PathView,
    file: Measured,
    take: bool,
)
    ensures
        take && file.local ==> {
            let after = noted(list, path, file, take);
            &&& after.len() == list.len() + 1
            &&& forall|i: int| 0 <= i < list.len() ==> #[trigger] after[i] == list[i]
            &&& after.last().path == path
            &&& after.last().size == file.size
            &&& file.modified matches Some(t) ==> after.last().modified == t
            &&& file.modified is None ==> after.last().modified.nanos == 0
        },
        !(take && file.local) ==> noted(list, path, file, take) == list,
{
}

} // verus!
