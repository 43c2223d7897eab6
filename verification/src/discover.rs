//! The search for a checkout of diskscout, one directory at a time.

use vstd::prelude::*;

use crate::order::{in_order, lemma_in_order, sort, Ranked};
use crate::path::{part_text, path_leq, FsPath, Part, PartView, PathView};
use crate::platform::{path_view, text_view};
use crate::sweep::{entry_path, Entry, EntryView};
use crate::text::{contains, occurs_in, starts_with, text_is, views};

verus! {

broadcast use crate::text::lemma_views_push;

/// How many levels below a root are searched.
pub const SEARCH_DEPTH: u32 = 4;

/// What was seen at a directory.
pub struct Site {
    /// The text of the `Cargo.toml` in it, if there is one that can be read.
    pub manifest: Option<String>,
    /// Where the directory really is, if that could be resolved.
    pub real: Option<FsPath>,
    /// Its entries. A link to a directory counts as one.
    pub entries: Vec<Entry>,
}

#[verifier::ext_equal]
pub struct SiteView {
    pub manifest: Option<Seq<char>>,
    pub real: Option<PathView>,
    pub entries: Seq<EntryView>,
}

impl View for Site {
    type V = SiteView;

    open spec fn view(&self) -> SiteView {
        SiteView {
            manifest: text_view(self.manifest),
            real: path_view(self.real),
            entries: views(self.entries@),
        }
    }
}

/// What there is to be seen at every directory.
pub type Sites = spec_fn(PathView) -> SiteView;

/// The manifest is that of diskscout.
pub open spec fn is_checkout(manifest: Option<Seq<char>>) -> bool {
    manifest matches Some(text) && occurs_in("name = \"diskscout\""@, text)
}

/// Whether a directory with this manifest is a checkout of diskscout.
pub fn is_diskscout_workspace(manifest: &Option<String>) -> (r: bool)
    ensures
        r == is_checkout(text_view(*manifest)),
{
    match manifest {
        Some(text) => contains(text.as_str(), "name = \"diskscout\""),
        None => false,
    }
}

/// The directories that are not searched.
pub open spec fn is_passed_over(name: PartView) -> bool {
    let text = part_text(name);
    ||| "."@.is_prefix_of(text)
    ||| text == "node_modules"@
    ||| text == "target"@
    ||| text == "build"@
    ||| text == "dist"@
    ||| text == ".git"@
}

fn passed_over(name: &Part) -> (r: bool)
    ensures
        r == is_passed_over(name@),
{
    let text = name.text();
    starts_with(text.as_str(), ".") || text_is(&text, "node_modules") || text_is(&text, "target")
        || text_is(&text, "build") || text_is(&text, "dist") || text_is(&text, ".git")
}

pub open spec fn real_path(dir: PathView, site: SiteView) -> PathView {
    match site.real {
        Some(path) => path,
        None => dir,
    }
}

/// The checkouts at `dir` and up to `left` levels below it. A checkout is not
/// searched itself.
pub open spec fn checkouts_at(sites: Sites, dir: PathView, left: nat) -> Seq<PathView>
    decreases left, 1nat, 0nat,
{
    if is_checkout(sites(dir).manifest) {
        seq![real_path(dir, sites(dir))]
    } else {
        checkouts_in(sites, dir, sites(dir).entries, left)
    }
}

pub open spec fn checkouts_in(
    sites: Sites,
    dir: PathView,
    entries: Seq<EntryView>,
    left: nat,
) -> Seq<PathView>
    decreases left, 0nat, entries.len(),
{
    if entries.len() == 0 {
        Seq::empty()
    } else {
        let rest = checkouts_in(sites, dir, entries.drop_first(), left);
        if left > 0 && entries[0].is_dir && !is_passed_over(entries[0].name) {
            checkouts_at(sites, dir.child(entries[0].name), (left - 1) as nat) + rest
        } else {
            rest
        }
    }
}

/// The checkouts under each of the roots.
pub open spec fn checkouts_of_roots(sites: Sites, roots: Seq<PathView>) -> Seq<PathView>
    decreases roots.len(),
{
    if roots.len() == 0 {
        Seq::empty()
    } else {
        checkouts_at(sites, roots[0], SEARCH_DEPTH as nat) + checkouts_of_roots(
            sites,
            roots.drop_first(),
        )
    }
}

/// The first of the checkouts, in the order of paths.
pub open spec fn first_checkout(hits: Seq<PathView>) -> Option<PathView> {
    if hits.len() == 0 {
        None
    } else {
        Some(in_order::<FsPath>(hits)[0])
    }
}

// ---------------------------------------------------------------------------
// The search
// ---------------------------------------------------------------------------

/// A directory that is still to be looked at, and how many levels may follow.
pub type Stop = (FsPath, u32);

pub type StopView = (PathView, u32);

/// What the pending directories lead to, the last one first.
pub open spec fn pending_checkouts(sites: Sites, pending: Seq<StopView>) -> Seq<PathView>
    decreases pending.len(),
{
    if pending.len() == 0 {
        Seq::empty()
    } else {
        checkouts_at(sites, pending.last().0, pending.last().1 as nat) + pending_checkouts(
            sites,
            pending.drop_last(),
        )
    }
}

/// The directories that the entries of a listing lead to, in reverse.
pub open spec fn stops_for(dir: PathView, entries: Seq<EntryView>, left: u32) -> Seq<StopView>
    decreases entries.len(),
{
    if entries.len() == 0 {
        Seq::empty()
    } else {
        let rest = stops_for(dir, entries.drop_first(), left);
        if left > 0 && entries[0].is_dir && !is_passed_over(entries[0].name) {
            rest.push((dir.child(entries[0].name), (left - 1) as u32))
        } else {
            rest
        }
    }
}

pub open spec fn root_stops(roots: Seq<PathView>) -> Seq<StopView>
    decreases roots.len(),
{
    if roots.len() == 0 {
        Seq::empty()
    } else {
        root_stops(roots.drop_first()).push((roots[0], SEARCH_DEPTH))
    }
}

pub struct Discovery {
    pub pending: Vec<Stop>,
    pub hits: Vec<FsPath>,
}

impl Discovery {
    /// All that the search will have found in the end.
    pub open spec fn outcome(self, sites: Sites) -> Seq<PathView> {
        views(self.hits@) + pending_checkouts(sites, views(self.pending@))
    }

    pub fn new(roots: &Vec<FsPath>) -> (r: Discovery)
        ensures
            r.hits@.len() == 0,
            views(r.pending@) == root_stops(views(roots@)),
            forall|sites: Sites| #[trigger]
                r.outcome(sites) == checkouts_of_roots(sites, views(roots@)),
    {
        let mut pending: Vec<Stop> = Vec::new();
        let ghost all = views(roots@);
        let mut i = roots.len();
        assert(views(pending@) =~= root_stops(all.skip(i as int)));
        while i > 0
            invariant
                i <= roots.len(),
                all == views(roots@),
                views(pending@) == root_stops(all.skip(i as int)),
            decreases i,
        {
            i = i - 1;
            assert(all.skip(i as int).drop_first() =~= all.skip(i + 1));
            assert(all.skip(i as int)[0] == all[i as int]);
            pending.push((roots[i].clone(), SEARCH_DEPTH));
        }
        assert(all.skip(0) =~= all);
        let r = Discovery { pending, hits: Vec::new() };
        assert forall|sites: Sites| #[trigger]
            r.outcome(sites) == checkouts_of_roots(sites, views(roots@)) by {
            lemma_root_stops(sites, all);
            assert(r.outcome(sites) =~= checkouts_of_roots(sites, all));
        }
        r
    }

    /// The next directory to look at, with the number of levels that may follow
    /// it. When there is none the search is over.
    pub fn next(&mut self) -> (r: Option<(FsPath, u32)>)
        ensures
            r is None ==> final(self).pending@.len() == 0,
            final(self).hits == old(self).hits,
            forall|sites: Sites| #[trigger]
                old(self).outcome(sites) == (match r {
                    None => views(final(self).hits@),
                    Some(stop) => views(final(self).hits@) + (checkouts_at(
                        sites,
                        stop.0@,
                        stop.1 as nat,
                    ) + pending_checkouts(sites, views(final(self).pending@))),
                }),
    {
        let ghost start = *self;
        let ghost stack = views(self.pending@);
        match self.pending.pop() {
            Some(stop) => {
                assert(views(self.pending@) =~= stack.drop_last());
                assert(stack.last() == (stop.0@, stop.1));
                Some(stop)
            },
            None => {
                assert forall|sites: Sites| #[trigger]
                    start.outcome(sites) == views(self.hits@) by {
                    assert(start.outcome(sites) =~= views(self.hits@));
                }
                None
            },
        }
    }

    /// Takes in what was seen at the directory that `next` asked for.
    pub fn scan(&mut self, dir: &FsPath, left: u32, site: Site)
        ensures
            views(final(self).hits@) == (if is_checkout(site@.manifest) {
                views(old(self).hits@).push(real_path(dir@, site@))
            } else {
                views(old(self).hits@)
            }),
            views(final(self).pending@) == (if is_checkout(site@.manifest) {
                views(old(self).pending@)
            } else {
                views(old(self).pending@) + stops_for(dir@, site@.entries, left)
            }),
            forall|sites: Sites|
                sites(dir@) == site@ ==> #[trigger] final(self).outcome(sites) == views(
                    old(self).hits@,
                ) + (checkouts_at(sites, dir@, left as nat) + pending_checkouts(
                    sites,
                    views(old(self).pending@),
                )),
    {
        let ghost had = views(self.pending@);
        let ghost found = views(self.hits@);
        let ghost seen = site@;
        if is_diskscout_workspace(&site.manifest) {
            let hit = match site.real {
                Some(path) => path,
                None => dir.clone(),
            };
            self.hits.push(hit);
            assert forall|sites: Sites| sites(dir@) == seen implies #[trigger] self.outcome(sites)
                == found + (checkouts_at(sites, dir@, left as nat) + pending_checkouts(
                sites,
                had,
            )) by {
                assert(self.outcome(sites) =~= found + (checkouts_at(sites, dir@, left as nat)
                    + pending_checkouts(sites, had)));
            }
            return;
        }
        let entries = site.entries;
        let ghost all = views(entries@);
        let mut i = entries.len();
        assert(had + stops_for(dir@, all.skip(i as int), left) =~= had);
        while i > 0
            invariant
                i <= entries.len(),
                all == views(entries@),
                self.hits@ == old(self).hits@,
                views(self.pending@) == had + stops_for(dir@, all.skip(i as int), left),
            decreases i,
        {
            i = i - 1;
            let entry = &entries[i];
            assert(all.skip(i as int).drop_first() =~= all.skip(i + 1));
            assert(all.skip(i as int)[0] == entry@);
            if left > 0 && entry.is_dir && !passed_over(&entry.name) {
                self.pending.push((dir.child(&entry.name), left - 1));
            }
            assert(views(self.pending@) =~= had + stops_for(dir@, all.skip(i as int), left));
        }
        assert(all.skip(0) =~= all);
        assert forall|sites: Sites| sites(dir@) == seen implies #[trigger] self.outcome(sites)
            == found + (checkouts_at(sites, dir@, left as nat) + pending_checkouts(sites, had)) by {
            lemma_stops_for(sites, had, dir@, all, left);
        }
    }

    /// The checkout to be used, once the search is over.
    pub fn discover_workspace(self) -> (r: Option<FsPath>)
        ensures
            path_view(r) == first_checkout(views(self.hits@)),
    {
        if self.hits.len() == 0 {
            return None;
        }
        let ghost all = views(self.hits@);
        proof {
            lemma_in_order::<FsPath>(all);
        }
        let mut sorted = sort(self.hits);
        let ghost ordered = views(sorted@);
        let first = sorted.remove(0);
        assert(first@ == ordered[0]);
        Some(first)
    }
}

proof fn lemma_root_stops(sites: Sites, roots: Seq<PathView>)
    ensures
        pending_checkouts(sites, root_stops(roots)) == checkouts_of_roots(sites, roots),
    decreases roots.len(),
{
    if roots.len() > 0 {
        lemma_root_stops(sites, roots.drop_first());
        assert(root_stops(roots).drop_last() =~= root_stops(roots.drop_first()));
    }
}

proof fn lemma_stops_for(
    sites: Sites,
    pending: Seq<StopView>,
    dir: PathView,
    entries: Seq<EntryView>,
    left: u32,
)
    ensures
        pending_checkouts(sites, pending + stops_for(dir, entries, left)) == checkouts_in(
            sites,
            dir,
            entries,
            left as nat,
        ) + pending_checkouts(sites, pending),
    decreases entries.len(),
{
    let stops = stops_for(dir, entries, left);
    if entries.len() == 0 {
        assert(pending + stops =~= pending);
        assert(checkouts_in(sites, dir, entries, left as nat) + pending_checkouts(sites, pending)
            =~= pending_checkouts(sites, pending));
    } else {
        let rest = stops_for(dir, entries.drop_first(), left);
        lemma_stops_for(sites, pending, dir, entries.drop_first(), left);
        if stops.len() > rest.len() {
            assert((pending + stops).drop_last() =~= pending + rest);
            assert((pending + stops).last() == stops.last());
            assert(pending_checkouts(sites, pending + stops) =~= checkouts_in(
                sites,
                dir,
                entries,
                left as nat,
            ) + pending_checkouts(sites, pending));
        }
    }
}

/// Of several checkouts the first in path order is used, whichever was found
/// first.
pub proof fn the_first_checkout_in_path_order_is_used(hits: Seq<PathView>)
    requires
        hits.len() > 0,
    ensures
        first_checkout(hits) matches Some(path) && hits.contains(path) && forall|i: int|
            0 <= i < hits.len() ==> path_leq(path, #[trigger] hits[i]),
{
    let sorted = in_order::<FsPath>(hits);
    lemma_in_order::<FsPath>(hits);
    assert(sorted.contains(sorted[0]));
    assert forall|i: int| 0 <= i < hits.len() implies path_leq(sorted[0], #[trigger] hits[i]) by {
        assert(hits.contains(hits[i]));
        assert(sorted.contains(hits[i]));
        let k = choose|k: int| 0 <= k < sorted.len() && sorted[k] == hits[i];
        assert(FsPath::leq(sorted[0], sorted[k]));
    }
}

// ---------------------------------------------------------------------------
// Laws
// ---------------------------------------------------------------------------

/// A checkout is known by its name in the manifest.
pub proof fn a_checkout_is_known_by_its_manifest(manifest: Option<Seq<char>>)
    ensures
        is_checkout(manifest) <==> manifest is Some && occurs_in(
            "name = \"diskscout\""@,
            manifest->0,
        ),
{
}

/// Hidden directories are not searched, nor those that hold dependencies or what
/// was built.
pub proof fn these_directories_are_not_searched(name: Seq<char>)
    ensures
        is_passed_over(PartView::Name(name)) <==> (name.len() > 0 && name[0] == '.' || name
            == "node_modules"@ || name == "target"@ || name == "build"@ || name == "dist"@),
{
    reveal_strlit(".");
    reveal_strlit(".git");
    assert("."@[0] == '.' && ".git"@[0] == '.');
    if name.len() > 0 && name[0] == '.' {
        assert(name.subrange(0, 1) =~= "."@);
        assert("."@.is_prefix_of(name));
    }
    if "."@.is_prefix_of(name) {
        assert(name.subrange(0, 1)[0] == '.');
    }
}

/// The names lead from `dir` to a checkout, through directories that are searched
/// and are no checkouts themselves.
pub open spec fn leads_to_checkout(sites: Sites, dir: PathView, names: Seq<PartView>) -> bool
    decreases names.len(),
{
    if names.len() == 0 {
        is_checkout(sites(dir).manifest)
    } else {
        &&& !is_checkout(sites(dir).manifest)
        &&& sites(dir).entries.contains(EntryView { name: names[0], is_dir: true })
        &&& !is_passed_over(names[0])
        &&& leads_to_checkout(sites, dir.child(names[0]), names.drop_first())
    }
}

/// Where a directory really is, or as far as is known.
pub open spec fn whereabouts(sites: Sites, dir: PathView) -> PathView {
    if sites(dir).real is Some {
        sites(dir).real->0
    } else {
        dir
    }
}

proof fn lemma_checkout_found(sites: Sites, dir: PathView, names: Seq<PartView>, left: nat)
    requires
        leads_to_checkout(sites, dir, names),
        names.len() <= left,
    ensures
        checkouts_at(sites, dir, left).contains(whereabouts(sites, entry_path(dir, names))),
    decreases names.len(), 0nat,
{
    if names.len() == 0 {
        assert(checkouts_at(sites, dir, left)[0] == whereabouts(sites, dir));
    } else {
        let entries = sites(dir).entries;
        let entry = EntryView { name: names[0], is_dir: true };
        let k = choose|k: int| 0 <= k < entries.len() && entries[k] == entry;
        lemma_checkout_found_in(sites, dir, entries, names, left, k);
    }
}

proof fn lemma_checkout_found_in(
    sites: Sites,
    dir: PathView,
    entries: Seq<EntryView>,
    names: Seq<PartView>,
    left: nat,
    k: int,
)
    requires
        0 < names.len() <= left,
        0 <= k < entries.len(),
        entries[k] == (EntryView { name: names[0], is_dir: true }),
        !is_passed_over(names[0]),
        leads_to_checkout(sites, dir.child(names[0]), names.drop_first()),
    ensures
        checkouts_in(sites, dir, entries, left).contains(
            whereabouts(sites, entry_path(dir, names)),
        ),
    decreases names.len() - 1, entries.len() + 1,
{
    let hit = whereabouts(sites, entry_path(dir, names));
    let rest = checkouts_in(sites, dir, entries.drop_first(), left);
    let child = dir.child(entries[0].name);
    let own = checkouts_at(sites, child, (left - 1) as nat);
    let all = checkouts_in(sites, dir, entries, left);
    if k == 0 {
        lemma_checkout_found(sites, child, names.drop_first(), (left - 1) as nat);
        let i = choose|i: int| 0 <= i < own.len() && own[i] == hit;
        assert(all[i] == hit);
    } else {
        lemma_checkout_found_in(sites, dir, entries.drop_first(), names, left, k - 1);
        let i = choose|i: int| 0 <= i < rest.len() && rest[i] == hit;
        if entries[0].is_dir && !is_passed_over(entries[0].name) {
            assert(all[own.len() + i] == hit);
        } else {
            assert(all[i] == hit);
        }
    }
}

/// A checkout is found where it is a root or lies up to four levels below one, and
/// is reported where it really is.
pub proof fn a_checkout_four_levels_down_is_found(
    sites: Sites,
    roots: Seq<PathView>,
    r: int,
    names: Seq<PartView>,
)
    requires
        0 <= r < roots.len(),
        leads_to_checkout(sites, roots[r], names),
        names.len() <= 4,
    ensures
        checkouts_of_roots(sites, roots).contains(whereabouts(sites, entry_path(roots[r], names))),
    decreases roots.len(),
{
    let hit = whereabouts(sites, entry_path(roots[r], names));
    let own = checkouts_at(sites, roots[0], 4);
    let rest = checkouts_of_roots(sites, roots.drop_first());
    let all = checkouts_of_roots(sites, roots);
    if r == 0 {
        lemma_checkout_found(sites, roots[0], names, 4);
        let i = choose|i: int| 0 <= i < own.len() && own[i] == hit;
        assert(all[i] == hit);
    } else {
        a_checkout_four_levels_down_is_found(sites, roots.drop_first(), r - 1, names);
        let i = choose|i: int| 0 <= i < rest.len() && rest[i] == hit;
        assert(all[own.len() + i] == hit);
    }
}

proof fn lemma_checkout_origin(sites: Sites, dir: PathView, left: nat, i: int) -> (names: Seq<
    PartView,
>)
    requires
        0 <= i < checkouts_at(sites, dir, left).len(),
    ensures
        names.len() <= left,
        leads_to_checkout(sites, dir, names),
        checkouts_at(sites, dir, left)[i] == whereabouts(sites, entry_path(dir, names)),
    decreases left, 1nat, 0nat,
{
    if is_checkout(sites(dir).manifest) {
        Seq::empty()
    } else {
        lemma_checkout_origin_in(sites, dir, sites(dir).entries, left, i)
    }
}

proof fn lemma_checkout_origin_in(
    sites: Sites,
    dir: PathView,
    entries: Seq<EntryView>,
    left: nat,
    i: int,
) -> (names: Seq<PartView>)
    requires
        0 <= i < checkouts_in(sites, dir, entries, left).len(),
    ensures
        0 < names.len() <= left,
        entries.contains(EntryView { name: names[0], is_dir: true }),
        !is_passed_over(names[0]),
        leads_to_checkout(sites, dir.child(names[0]), names.drop_first()),
        checkouts_in(sites, dir, entries, left)[i] == whereabouts(sites, entry_path(dir, names)),
    decreases left, 0nat, entries.len(),
{
    let later = entries.drop_first();
    let all = checkouts_in(sites, dir, entries, left);
    let child = dir.child(entries[0].name);
    let taken: int = if left > 0 && entries[0].is_dir && !is_passed_over(entries[0].name) {
        checkouts_at(sites, child, (left - 1) as nat).len() as int
    } else {
        0
    };
    if i < taken {
        let inner = lemma_checkout_origin(sites, child, (left - 1) as nat, i);
        let names = seq![entries[0].name] + inner;
        assert(names.drop_first() =~= inner);
        assert(entries[0] == (EntryView { name: names[0], is_dir: true }));
        assert(all[i] == checkouts_at(sites, child, (left - 1) as nat)[i]);
        names
    } else {
        assert(all[i] == checkouts_in(sites, dir, later, left)[i - taken]);
        let names = lemma_checkout_origin_in(sites, dir, later, left, i - taken);
        let entry = EntryView { name: names[0], is_dir: true };
        let k = choose|k: int| 0 <= k < later.len() && later[k] == entry;
        assert(entries[k + 1] == entry);
        names
    }
}

/// Nothing else is found: every hit is a checkout, at a root or up to four levels
/// below one.
pub proof fn only_checkouts_are_found(sites: Sites, roots: Seq<PathView>, i: int) -> (at: (
    int,
    Seq<PartView>,
))
    requires
        0 <= i < checkouts_of_roots(sites, roots).len(),
    ensures
        0 <= at.0 < roots.len(),
        at.1.len() <= 4,
        leads_to_checkout(sites, roots[at.0], at.1),
        checkouts_of_roots(sites, roots)[i] == whereabouts(sites, entry_path(roots[at.0], at.1)),
    decreases roots.len(),
{
    let own = checkouts_at(sites, roots[0], 4);
    let rest = roots.drop_first();
    let all = checkouts_of_roots(sites, roots);
    if i < own.len() {
        assert(all[i] == own[i]);
        (0, lemma_checkout_origin(sites, roots[0], 4, i))
    } else {
        assert(all[i] == checkouts_of_roots(sites, rest)[i - own.len()]);
        let at = only_checkouts_are_found(sites, rest, i - own.len());
        assert(roots[at.0 + 1] == rest[at.0]);
        (at.0 + 1, at.1)
    }
}

} // verus!
