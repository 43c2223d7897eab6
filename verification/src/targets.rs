//! Lists of directories to measure, each with the category it would be
//! reported under.

use vstd::prelude::*;

use crate::category::Category;
use crate::order::{
    first_where, in_order, inserted, is_ordered, lemma_first_where_push, lemma_front_ordered,
    lemma_in_order, lemma_in_order_again, lemma_in_order_keeps_first, lemma_ordered_at, sort,
    Ranked,
};
use crate::path::{
    are_faithful, is_inside, lemma_ancestor_first, lemma_inside, lemma_parts_antisymmetric,
    lemma_path_total, lemma_path_transitive, parts_leq, path_leq, same_path, FsPath, Parts,
    PathView,
};
use crate::text::views;

verus! {

broadcast use crate::text::lemma_views_push;

pub type Target = (FsPath, Category);

pub type TargetView = (PathView, Category);

impl Ranked for (FsPath, Category) {
    open spec fn leq(a: TargetView, b: TargetView) -> bool {
        path_leq(a.0, b.0)
    }

    proof fn leq_total(a: TargetView, b: TargetView) {
        lemma_path_total(a.0, b.0);
    }

    proof fn leq_transitive(a: TargetView, b: TargetView, c: TargetView) {
        lemma_path_transitive(a.0, b.0, c.0);
    }

    fn le(&self, other: &Self) -> (r: bool) {
        self.0.le(&other.0)
    }
}

pub open spec fn target_paths(targets: Seq<TargetView>) -> Seq<PathView> {
    Seq::new(targets.len(), |i: int| targets[i].0)
}

/// One of the targets is this path.
pub open spec fn claims(targets: Seq<TargetView>, path: PathView) -> bool {
    exists|i: int| 0 <= i < targets.len() && same_path((#[trigger] targets[i]).0, path)
}

/// The path is one of the targets or lies inside one.
pub open spec fn covered(targets: Seq<TargetView>, path: PathView) -> bool {
    exists|i: int| 0 <= i < targets.len() && is_inside(path, (#[trigger] targets[i]).0)
}

// ---------------------------------------------------------------------------
// Claims
// ---------------------------------------------------------------------------

/// `found` added to `out`, except for the paths that `out` has already.
pub open spec fn with_unclaimed(out: Seq<TargetView>, found: Seq<TargetView>) -> Seq<TargetView>
    decreases found.len(),
{
    if found.len() == 0 {
        out
    } else {
        let so_far = with_unclaimed(out, found.drop_last());
        if claims(so_far, found.last().0) {
            so_far
        } else {
            so_far.push(found.last())
        }
    }
}

fn claimed(targets: &Vec<Target>, path: &FsPath) -> (r: bool)
    ensures
        r == claims(views(targets@), path@),
{
    let ghost all = views(targets@);
    for i in 0..targets.len()
        invariant
            all == views(targets@),
            forall|j: int| 0 <= j < i ==> !same_path((#[trigger] all[j]).0, path@),
    {
        if targets[i].0.same(path) {
            assert(same_path(all[i as int].0, path@));
            return true;
        }
    }
    false
}

/// A broad sweep must not overwrite a category a specific rule already assigned,
/// or a path deliberately held back would come back as deletable.
pub fn push_unclaimed(out: &mut Vec<Target>, found: Vec<Target>)
    ensures
        views(final(out)@) == with_unclaimed(views(old(out)@), views(found@)),
{
    let ghost had = views(out@);
    let ghost all = views(found@);
    for target in it: found
        invariant
            it.seq() == found@,
            all == views(found@),
            views(out@) == with_unclaimed(had, all.take(it.index() as int)),
    {
        assert(all.take(it.index() + 1).drop_last() =~= all.take(it.index() as int));
        if !claimed(out, &target.0) {
            out.push(target);
        }
    }
    assert(all.take(all.len() as int) =~= all);
}

/// One of the paths is this one.
pub open spec fn lists(paths: Seq<PathView>, path: PathView) -> bool {
    exists|i: int| 0 <= i < paths.len() && same_path(#[trigger] paths[i], path)
}

/// The targets whose paths were seen on the disk.
pub open spec fn seen_on_disk(targets: Seq<TargetView>, present: Seq<PathView>) -> Seq<TargetView>
    decreases targets.len(),
{
    if targets.len() == 0 {
        Seq::empty()
    } else {
        let front = seen_on_disk(targets.drop_last(), present);
        if lists(present, targets.last().0) {
            front.push(targets.last())
        } else {
            front
        }
    }
}

pub fn has_path(paths: &Vec<FsPath>, path: &FsPath) -> (r: bool)
    ensures
        r == lists(views(paths@), path@),
{
    let ghost all = views(paths@);
    for i in 0..paths.len()
        invariant
            all == views(paths@),
            forall|j: int| 0 <= j < i ==> !same_path(#[trigger] all[j], path@),
    {
        if paths[i].same(path) {
            assert(same_path(all[i as int], path@));
            return true;
        }
    }
    false
}

/// Keeps the candidates that are really there.
pub fn keep_present(targets: Vec<Target>, present: &Vec<FsPath>) -> (r: Vec<Target>)
    ensures
        views(r@) == seen_on_disk(views(targets@), views(present@)),
{
    let mut out: Vec<Target> = Vec::new();
    let ghost all = views(targets@);
    assert(views(out@) =~= seen_on_disk(all.take(0), views(present@)));
    for target in it: targets
        invariant
            it.seq() == targets@,
            all == views(targets@),
            views(out@) == seen_on_disk(all.take(it.index() as int), views(present@)),
    {
        assert(all.take(it.index() + 1).drop_last() =~= all.take(it.index() as int));
        if has_path(present, &target.0) {
            out.push(target);
        }
    }
    assert(all.take(all.len() as int) =~= all);
    out
}

// ---------------------------------------------------------------------------
// Overlaps
// ---------------------------------------------------------------------------

/// Of targets listed with ancestors first, those that no earlier one covers.
pub open spec fn uncovered(targets: Seq<TargetView>) -> Seq<TargetView>
    decreases targets.len(),
{
    if targets.len() == 0 {
        Seq::empty()
    } else {
        let kept = uncovered(targets.drop_last());
        if covered(kept, targets.last().0) {
            kept
        } else {
            kept.push(targets.last())
        }
    }
}

/// The targets without those inside another one, in path order.
pub open spec fn outermost(targets: Seq<TargetView>) -> Seq<TargetView> {
    uncovered(in_order::<Target>(targets))
}

fn is_covered(targets: &Vec<Target>, path: &FsPath) -> (r: bool)
    ensures
        r == covered(views(targets@), path@),
{
    let ghost all = views(targets@);
    for i in 0..targets.len()
        invariant
            all == views(targets@),
            forall|j: int| 0 <= j < i ==> !is_inside(path@, (#[trigger] all[j]).0),
    {
        if path.starts_with(&targets[i].0) {
            assert(is_inside(path@, all[i as int].0));
            return true;
        }
    }
    false
}

/// Two targets can name the same directory (%TEMP% under a relocated profile),
/// and one can sit inside another (a sandboxed app's cache inside its own
/// container). Sizing either twice inflates the total, so only the outermost of
/// an overlap survives. Path order puts an ancestor ahead of everything under it.
pub fn keep_outermost(targets: Vec<Target>) -> (r: Vec<Target>)
    ensures
        views(r@) == outermost(views(targets@)),
{
    let sorted = sort(targets);
    let ghost all = views(sorted@);
    let mut kept: Vec<Target> = Vec::new();
    assert(views(kept@) =~= uncovered(all.take(0)));
    for target in it: sorted
        invariant
            it.seq() == sorted@,
            all == views(sorted@),
            views(kept@) == uncovered(all.take(it.index() as int)),
    {
        assert(all.take(it.index() + 1).drop_last() =~= all.take(it.index() as int));
        if !is_covered(&kept, &target.0) {
            kept.push(target);
        }
    }
    assert(all.take(all.len() as int) =~= all);
    kept
}

// ---------------------------------------------------------------------------
// Laws
// ---------------------------------------------------------------------------

proof fn lemma_uncovered_covers(s: Seq<TargetView>, i: int)
    requires
        0 <= i < s.len(),
    ensures
        covered(uncovered(s), s[i].0),
    decreases s.len(),
{
    let front = s.drop_last();
    let kept = uncovered(front);
    let r = uncovered(s);
    if i < front.len() {
        lemma_uncovered_covers(front, i);
        let k = choose|k: int| 0 <= k < kept.len() && is_inside(s[i].0, (#[trigger] kept[k]).0);
        assert(r[k] == kept[k]);
    } else if r.len() > kept.len() {
        lemma_inside(s.last().0, s.last().0, s.last().0);
        assert(r[kept.len() as int] == s[i]);
    }
}

proof fn lemma_uncovered_apart(s: Seq<TargetView>, i: int, j: int)
    requires
        0 <= i < j < uncovered(s).len(),
    ensures
        !is_inside(uncovered(s)[j].0, uncovered(s)[i].0),
    decreases s.len(),
{
    let kept = uncovered(s.drop_last());
    if j < kept.len() {
        lemma_uncovered_apart(s.drop_last(), i, j);
    } else {
        assert(uncovered(s)[i] == kept[i]);
        assert(!covered(kept, s.last().0));
    }
}

proof fn lemma_uncovered_subset(s: Seq<TargetView>, i: int)
    requires
        0 <= i < uncovered(s).len(),
    ensures
        s.contains(uncovered(s)[i]),
    decreases s.len(),
{
    let front = s.drop_last();
    let kept = uncovered(front);
    if i < kept.len() {
        lemma_uncovered_subset(front, i);
        let k = choose|k: int| 0 <= k < front.len() && front[k] == kept[i];
        assert(s[k] == kept[i]);
    } else {
        assert(s[s.len() - 1] == uncovered(s)[i]);
    }
}

/// `uncovered` passes the targets on in the order in which they came.
proof fn lemma_uncovered_ordered(s: Seq<TargetView>, i: int, j: int)
    requires
        is_ordered::<Target>(s),
        0 <= i <= j < uncovered(s).len(),
    ensures
        path_leq(uncovered(s)[i].0, uncovered(s)[j].0),
    decreases s.len(),
{
    let front = s.drop_last();
    let kept = uncovered(front);
    let r = uncovered(s);
    let last = s.len() - 1;
    if j < kept.len() {
        lemma_front_ordered::<Target>(s);
        lemma_uncovered_ordered(front, i, j);
        assert(r[i] == kept[i] && r[j] == kept[j]);
    } else if i < kept.len() {
        lemma_uncovered_subset(front, i);
        let k = choose|k: int| 0 <= k < front.len() && front[k] == kept[i];
        assert(s[k] == front[k]);
        assert(r[i] == s[k] && r[j] == s[last]);
        lemma_ordered_at::<Target>(s, k, last);
    } else {
        assert(r[i] == s[last] && r[j] == s[last]);
        lemma_path_total(s[last].0, s[last].0);
    }
}

/// What is kept does not overlap: no kept target lies inside another, and none
/// is listed twice.
pub proof fn kept_targets_do_not_overlap(targets: Seq<TargetView>, i: int, j: int)
    requires
        0 <= i < outermost(targets).len(),
        0 <= j < outermost(targets).len(),
        i != j,
    ensures
        !is_inside(outermost(targets)[j].0, outermost(targets)[i].0),
{
    let s = in_order::<Target>(targets);
    let r = outermost(targets);
    lemma_in_order::<Target>(targets);
    if i < j {
        lemma_uncovered_apart(s, i, j);
    } else if is_inside(r[j].0, r[i].0) {
        // r[j] comes first, so it cannot come after its ancestor r[i].
        lemma_uncovered_ordered(s, j, i);
        lemma_ancestor_first(r[j].0, r[i].0);
        assert(same_path(r[j].0, r[i].0));
        lemma_inside(r[i].0, r[i].0, r[i].0);
        lemma_uncovered_apart(s, j, i);
    }
}

/// Nothing is lost: every target is kept or lies inside one that is, and
/// everything kept was a target.
pub proof fn kept_targets_cover_everything(targets: Seq<TargetView>)
    ensures
        forall|i: int|
            0 <= i < targets.len() ==> covered(outermost(targets), (#[trigger] targets[i]).0),
        forall|i: int|
            0 <= i < outermost(targets).len() ==> targets.contains(
                #[trigger] outermost(targets)[i],
            ),
{
    let s = in_order::<Target>(targets);
    lemma_in_order::<Target>(targets);
    assert forall|i: int| 0 <= i < targets.len() implies covered(
        outermost(targets),
        (#[trigger] targets[i]).0,
    ) by {
        assert(targets.contains(targets[i]));
        assert(s.contains(targets[i]));
        let k = choose|k: int| 0 <= k < s.len() && s[k] == targets[i];
        lemma_uncovered_covers(s, k);
    }
    assert forall|i: int| 0 <= i < outermost(targets).len() implies targets.contains(
        #[trigger] outermost(targets)[i],
    ) by {
        lemma_uncovered_subset(s, i);
        assert(targets.contains(uncovered(s)[i]));
    }
}

/// A path survives exactly when no other target contains it.
pub proof fn only_the_outermost_survive(targets: Seq<TargetView>, path: PathView)
    requires
        claims(targets, path),
    ensures
        claims(outermost(targets), path) <==> forall|i: int|
            0 <= i < targets.len() && is_inside(path, (#[trigger] targets[i]).0)
                ==> same_path(targets[i].0, path),
{
    let r = outermost(targets);
    kept_targets_cover_everything(targets);
    if claims(r, path) {
        let k = choose|k: int| 0 <= k < r.len() && same_path((#[trigger] r[k]).0, path);
        assert forall|i: int|
            0 <= i < targets.len() && is_inside(path, (#[trigger] targets[i]).0) implies same_path(
            targets[i].0,
            path,
        ) by {
            assert(covered(r, targets[i].0));
            let m = choose|m: int|
                0 <= m < r.len() && is_inside(targets[i].0, (#[trigger] r[m]).0);
            lemma_inside(path, targets[i].0, r[m].0);
            if m != k {
                kept_targets_do_not_overlap(targets, m, k);
            }
            lemma_inside(path, targets[i].0, path);
        }
    } else {
        let t = choose|t: int|
            0 <= t < targets.len() && same_path((#[trigger] targets[t]).0, path);
        assert(covered(r, targets[t].0));
        let m = choose|m: int| 0 <= m < r.len() && is_inside(path, (#[trigger] r[m]).0);
        assert(targets.contains(r[m]));
        let i = choose|i: int| 0 <= i < targets.len() && targets[i] == r[m];
        assert(is_inside(path, targets[i].0));
    }
}

/// Being a target for this path.
pub open spec fn at_path(path: PathView) -> spec_fn(TargetView) -> bool {
    |t: TargetView| same_path(t.0, path)
}

proof fn lemma_uncovered_first(s: Seq<TargetView>, i: int)
    requires
        0 <= i < uncovered(s).len(),
    ensures
        first_where(s, at_path(uncovered(s)[i].0)) == Some(uncovered(s)[i]),
    decreases s.len(),
{
    let front = s.drop_last();
    let kept = uncovered(front);
    let path = uncovered(s)[i].0;
    assert(front.push(s.last()) =~= s);
    lemma_first_where_push(front, s.last(), at_path(path));
    if i < kept.len() {
        assert(uncovered(s)[i] == kept[i]);
        lemma_uncovered_first(front, i);
    } else {
        assert forall|k: int| 0 <= k < front.len() implies !at_path(path)(#[trigger] front[k]) by {
            lemma_uncovered_covers(front, k);
        }
    }
}

/// Where several rules named one directory, the first of them says what it is.
pub proof fn the_first_claim_names_a_kept_target(targets: Seq<TargetView>, i: int)
    requires
        0 <= i < outermost(targets).len(),
    ensures
        first_where(targets, at_path(outermost(targets)[i].0)) == Some(outermost(targets)[i]),
{
    let s = in_order::<Target>(targets);
    let p = at_path(outermost(targets)[i].0);
    lemma_uncovered_first(s, i);
    assert forall|a: TargetView, b: TargetView| p(a) && p(b) implies #[trigger] Target::leq(
        a,
        b,
    ) by {
        lemma_path_total(a.0, b.0);
    }
    lemma_in_order_keeps_first::<Target>(targets, p);
}

/// A claim stands: adding what a sweep found changes no target that was there,
/// and gives no path a second category.
pub proof fn a_claim_stands(out: Seq<TargetView>, found: Seq<TargetView>)
    ensures
        out.is_prefix_of(with_unclaimed(out, found)),
        forall|i: int|
            out.len() <= i < with_unclaimed(out, found).len() ==> found.contains(
                #[trigger] with_unclaimed(out, found)[i],
            ) && !claims(out, with_unclaimed(out, found)[i].0),
        forall|i: int|
            0 <= i < found.len() ==> claims(with_unclaimed(out, found), (#[trigger] found[i]).0),
    decreases found.len(),
{
    let r = with_unclaimed(out, found);
    if found.len() == 0 {
        assert(out.subrange(0, out.len() as int) =~= out);
    } else {
        let front = found.drop_last();
        let so_far = with_unclaimed(out, front);
        a_claim_stands(out, front);
        assert(r.subrange(0, out.len() as int) =~= so_far.subrange(0, out.len() as int));
        assert forall|i: int| out.len() <= i < r.len() implies found.contains(#[trigger] r[i])
            && !claims(out, r[i].0) by {
            if i < so_far.len() {
                assert(r[i] == so_far[i]);
                assert(front.contains(so_far[i]));
                let k = choose|k: int| 0 <= k < front.len() && front[k] == so_far[i];
                assert(found[k] == r[i]);
            } else {
                assert(found[found.len() - 1] == r[i]);
                if claims(out, r[i].0) {
                    let k = choose|k: int|
                        0 <= k < out.len() && same_path((#[trigger] out[k]).0, r[i].0);
                    assert(so_far.subrange(0, out.len() as int)[k] == out[k]);
                    assert(same_path(so_far[k].0, r[i].0));
                    assert(claims(so_far, r[i].0));
                }
            }
        }
        assert forall|i: int| 0 <= i < found.len() implies claims(r, (#[trigger] found[i]).0) by {
            if i < front.len() {
                assert(found[i] == front[i]);
                let k = choose|k: int|
                    0 <= k < so_far.len() && same_path((#[trigger] so_far[k]).0, front[i].0);
                assert(same_path(r[k].0, found[i].0));
            } else if claims(so_far, found[i].0) {
                let k = choose|k: int|
                    0 <= k < so_far.len() && same_path((#[trigger] so_far[k]).0, found[i].0);
                assert(same_path(r[k].0, found[i].0));
            } else {
                assert(same_path(r[so_far.len() as int].0, found[i].0));
            }
        }
    }
}

proof fn lemma_outermost_ordered(targets: Seq<TargetView>)
    ensures
        is_ordered::<Target>(outermost(targets)),
{
    let s = in_order::<Target>(targets);
    let r = outermost(targets);
    lemma_in_order::<Target>(targets);
    assert forall|i: int, j: int| 0 <= i <= j < r.len() implies Target::leq(
        #[trigger] r[i],
        #[trigger] r[j],
    ) by {
        lemma_uncovered_ordered(s, i, j);
    }
}

proof fn lemma_nothing_covered(s: Seq<TargetView>)
    requires
        forall|i: int, j: int|
            0 <= i < j < s.len() ==> !is_inside((#[trigger] s[j]).0, (#[trigger] s[i]).0),
    ensures
        uncovered(s) == s,
    decreases s.len(),
{
    if s.len() == 0 {
        assert(uncovered(s) =~= s);
    } else {
        let front = s.drop_last();
        assert forall|i: int, j: int| 0 <= i < j < front.len() implies !is_inside(
            (#[trigger] front[j]).0,
            (#[trigger] front[i]).0,
        ) by {
            assert(!is_inside(s[j].0, s[i].0));
        }
        lemma_nothing_covered(front);
        if covered(front, s.last().0) {
            let i = choose|i: int|
                0 <= i < front.len() && is_inside(s.last().0, (#[trigger] front[i]).0);
            assert(!is_inside(s[s.len() - 1].0, s[i].0));
        }
        assert(front.push(s.last()) =~= s);
    }
}

/// Removing overlaps a second time changes nothing.
pub proof fn what_is_kept_is_kept_again(targets: Seq<TargetView>)
    ensures
        outermost(outermost(targets)) == outermost(targets),
{
    let r = outermost(targets);
    lemma_outermost_ordered(targets);
    lemma_in_order_again::<Target>(r);
    assert forall|i: int, j: int| 0 <= i < j < r.len() implies !is_inside(
        (#[trigger] r[j]).0,
        (#[trigger] r[i]).0,
    ) by {
        kept_targets_do_not_overlap(targets, i, j);
    }
    lemma_nothing_covered(r);
}

proof fn lemma_inserted_covered(s: Seq<TargetView>, x: TargetView)
    requires
        covered(s, x.0),
    ensures
        uncovered(inserted::<Target>(s, x)) == uncovered(s),
    decreases s.len(),
{
    let k = choose|k: int| 0 <= k < s.len() && is_inside(x.0, (#[trigger] s[k]).0);
    lemma_ancestor_first(x.0, s[k].0);
    if Target::leq(s.last(), x) {
        lemma_uncovered_covers(s, k);
        let kept = uncovered(s);
        let m = choose|m: int| 0 <= m < kept.len() && is_inside(s[k].0, (#[trigger] kept[m]).0);
        lemma_inside(x.0, s[k].0, kept[m].0);
        assert(covered(kept, x.0));
        assert(s.push(x).drop_last() =~= s);
    } else {
        let front = s.drop_last();
        let put = inserted::<Target>(front, x);
        assert(k < front.len());
        assert(is_inside(x.0, front[k].0));
        lemma_inserted_covered(front, x);
        assert(put.push(s.last()).drop_last() =~= put);
    }
}

/// A target that lies inside one that is there, or is it, adds nothing.
pub proof fn a_nested_target_adds_nothing(targets: Seq<TargetView>, nested: TargetView)
    requires
        covered(targets, nested.0),
    ensures
        outermost(targets.push(nested)) == outermost(targets),
{
    let s = in_order::<Target>(targets);
    let k = choose|k: int| 0 <= k < targets.len() && is_inside(nested.0, (#[trigger] targets[k]).0);
    lemma_in_order::<Target>(targets);
    assert(targets.contains(targets[k]));
    assert(s.contains(targets[k]));
    let m = choose|m: int| 0 <= m < s.len() && s[m] == targets[k];
    assert(is_inside(nested.0, s[m].0));
    lemma_inserted_covered(s, nested);
    assert(targets.push(nested).drop_last() =~= targets);
}

/// The components of the targets' paths.
pub open spec fn target_parts(targets: Seq<TargetView>) -> Seq<Parts> {
    Seq::new(targets.len(), |i: int| targets[i].0.parts())
}

/// Paths in order, none of them twice.
spec fn strictly_ordered(s: Seq<Parts>) -> bool {
    forall|i: int, j: int|
        0 <= i < j < s.len() ==> parts_leq(#[trigger] s[i], #[trigger] s[j]) && s[i] != s[j]
}

proof fn lemma_front_strictly_ordered(s: Seq<Parts>)
    requires
        strictly_ordered(s),
        s.len() > 0,
    ensures
        strictly_ordered(s.drop_last()),
{
    let front = s.drop_last();
    assert forall|i: int, j: int| 0 <= i < j < front.len() implies parts_leq(
        #[trigger] front[i],
        #[trigger] front[j],
    ) && front[i] != front[j] by {
        assert(parts_leq(s[i], s[j]) && s[i] != s[j]);
    }
}

proof fn lemma_same_elements(
    a: Seq<Parts>,
    b: Seq<Parts>,
    lossy: spec_fn(Seq<u8>) -> Seq<char>,
)
    requires
        strictly_ordered(a),
        strictly_ordered(b),
        forall|p: Parts| #[trigger] a.contains(p) <==> b.contains(p),
        forall|i: int| 0 <= i < a.len() ==> are_faithful(#[trigger] a[i], lossy),
    ensures
        a == b,
    decreases a.len(),
{
    if a.len() == 0 {
        if b.len() > 0 {
            assert(b.contains(b[0]));
            assert(a.contains(b[0]));
        }
        assert(a =~= b);
    } else {
        let x = a.last();
        assert(a[a.len() - 1] == x);
        assert(a.contains(x));
        assert(b.contains(x));
        let y = b.last();
        assert(b[b.len() - 1] == y);
        assert(b.contains(y));
        assert(a.contains(y));
        let k = choose|k: int| 0 <= k < b.len() && b[k] == x;
        let m = choose|m: int| 0 <= m < a.len() && a[m] == y;
        if x != y {
            assert(parts_leq(b[k], b[b.len() - 1]));
            assert(parts_leq(a[m], a[a.len() - 1]));
            assert(are_faithful(a[m], lossy));
            lemma_parts_antisymmetric(x, y, lossy);
        }
        let a1 = a.drop_last();
        let b1 = b.drop_last();
        lemma_front_strictly_ordered(a);
        lemma_front_strictly_ordered(b);
        assert forall|p: Parts| #[trigger] a1.contains(p) <==> b1.contains(p) by {
            lemma_without_last(a, p);
            lemma_without_last(b, p);
            assert(a.contains(p) <==> b.contains(p));
        }
        assert forall|i: int| 0 <= i < a1.len() implies are_faithful(#[trigger] a1[i], lossy) by {
            assert(are_faithful(a[i], lossy));
        }
        lemma_same_elements(a1, b1, lossy);
        assert(a =~= a1.push(x));
        assert(b =~= b1.push(y));
    }
}

proof fn lemma_without_last(s: Seq<Parts>, p: Parts)
    requires
        s.len() > 0,
        strictly_ordered(s),
    ensures
        s.drop_last().contains(p) <==> s.contains(p) && p != s.last(),
{
    let front = s.drop_last();
    if front.contains(p) {
        let k = choose|k: int| 0 <= k < front.len() && front[k] == p;
        assert(s[k] == p);
        assert(s[k] != s[s.len() - 1]);
    }
    if s.contains(p) && p != s.last() {
        let k = choose|k: int| 0 <= k < s.len() && s[k] == p;
        assert(front[k] == p);
    }
}

proof fn lemma_kept_in_order(targets: Seq<TargetView>)
    ensures
        strictly_ordered(target_parts(outermost(targets))),
{
    let r = outermost(targets);
    let paths = target_parts(r);
    lemma_outermost_ordered(targets);
    assert forall|i: int, j: int| 0 <= i < j < paths.len() implies parts_leq(
        #[trigger] paths[i],
        #[trigger] paths[j],
    ) && paths[i] != paths[j] by {
        assert(Target::leq(r[i], r[j]));
        kept_targets_do_not_overlap(targets, i, j);
        lemma_inside(r[j].0, r[j].0, r[j].0);
    }
}

proof fn lemma_kept_of_same_paths(t: Seq<TargetView>, other: Seq<TargetView>, p: Parts)
    requires
        forall|path: PathView| #[trigger] claims(t, path) <==> claims(other, path),
        target_parts(outermost(t)).contains(p),
    ensures
        target_parts(outermost(other)).contains(p),
{
    let r = outermost(t);
    let k = choose|k: int| 0 <= k < target_parts(r).len() && target_parts(r)[k] == p;
    let path = r[k].0;
    kept_targets_cover_everything(t);
    assert(t.contains(r[k]));
    let m = choose|m: int| 0 <= m < t.len() && t[m] == r[k];
    assert(same_path(t[m].0, path));
    assert(claims(t, path));
    assert(claims(other, path));
    assert(claims(r, path)) by {
        assert(same_path(r[k].0, path));
    }
    only_the_outermost_survive(t, path);
    only_the_outermost_survive(other, path);
    assert forall|i: int| 0 <= i < other.len() && is_inside(path, (#[trigger] other[i]).0) implies
        same_path(other[i].0, path) by {
        assert(claims(other, other[i].0));
        assert(claims(t, other[i].0));
        let n = choose|n: int| 0 <= n < t.len() && same_path((#[trigger] t[n]).0, other[i].0);
        assert(is_inside(path, t[n].0));
    }
    let kept = outermost(other);
    let q = choose|q: int| 0 <= q < kept.len() && same_path((#[trigger] kept[q]).0, path);
    assert(target_parts(kept)[q] == p);
}

/// Only which directories are named matters, not in which order nor how often:
/// lists that name the same ones keep the same paths, in the same order.
pub proof fn the_order_of_targets_does_not_matter(
    targets: Seq<TargetView>,
    other: Seq<TargetView>,
    lossy: spec_fn(Seq<u8>) -> Seq<char>,
)
    requires
        forall|path: PathView| #[trigger] claims(targets, path) <==> claims(other, path),
        forall|i: int|
            0 <= i < targets.len() ==> are_faithful((#[trigger] targets[i]).0.parts(), lossy),
    ensures
        target_parts(outermost(targets)) == target_parts(outermost(other)),
{
    let a = target_parts(outermost(targets));
    let b = target_parts(outermost(other));
    lemma_kept_in_order(targets);
    lemma_kept_in_order(other);
    assert forall|p: Parts| #[trigger] a.contains(p) <==> b.contains(p) by {
        if a.contains(p) {
            lemma_kept_of_same_paths(targets, other, p);
        }
        if b.contains(p) {
            lemma_kept_of_same_paths(other, targets, p);
        }
    }
    kept_targets_cover_everything(targets);
    assert forall|i: int| 0 <= i < a.len() implies are_faithful(#[trigger] a[i], lossy) by {
        assert(targets.contains(outermost(targets)[i]));
        let k = choose|k: int| 0 <= k < targets.len() && targets[k] == outermost(targets)[i];
        assert(are_faithful(targets[k].0.parts(), lossy));
    }
    lemma_same_elements(a, b, lossy);
}

/// Targets in another order keep the same paths, in the same order.
pub proof fn shuffled_targets_keep_the_same_paths(
    targets: Seq<TargetView>,
    shuffled: Seq<TargetView>,
    lossy: spec_fn(Seq<u8>) -> Seq<char>,
)
    requires
        targets.to_multiset() == shuffled.to_multiset(),
        forall|i: int|
            0 <= i < targets.len() ==> are_faithful((#[trigger] targets[i]).0.parts(), lossy),
    ensures
        target_parts(outermost(targets)) == target_parts(outermost(shuffled)),
{
    assert forall|path: PathView| #[trigger] claims(targets, path) <==> claims(shuffled, path) by {
        lemma_shuffled_claims(targets, shuffled, path);
        lemma_shuffled_claims(shuffled, targets, path);
    }
    the_order_of_targets_does_not_matter(targets, shuffled, lossy);
}

proof fn lemma_shuffled_claims(a: Seq<TargetView>, b: Seq<TargetView>, path: PathView)
    requires
        a.to_multiset() == b.to_multiset(),
    ensures
        claims(a, path) ==> claims(b, path),
{
    if claims(a, path) {
        let i = choose|i: int| 0 <= i < a.len() && same_path((#[trigger] a[i]).0, path);
        a.to_multiset_ensures();
        b.to_multiset_ensures();
        assert(a.contains(a[i]));
        assert(b.to_multiset().count(a[i]) > 0);
        assert(b.contains(a[i]));
        let k = choose|k: int| 0 <= k < b.len() && b[k] == a[i];
        assert(same_path(b[k].0, path));
    }
}

/// Of the candidates exactly those are kept whose path was seen.
pub proof fn what_was_seen_is_kept(targets: Seq<TargetView>, present: Seq<PathView>, t: TargetView)
    ensures
        seen_on_disk(targets, present).contains(t) <==> targets.contains(t) && exists|k: int|
            0 <= k < present.len() && (#[trigger] present[k]).parts() == t.0.parts(),
    decreases targets.len(),
{
    let kept = seen_on_disk(targets, present);
    if targets.len() > 0 {
        let front = targets.drop_last();
        let last = targets.last();
        let some = seen_on_disk(front, present);
        what_was_seen_is_kept(front, present, t);
        assert(targets =~= front.push(last));
        lemma_target_pushed(front, last, t);
        lemma_target_pushed(some, last, t);
        if lists(present, last.0) {
            let k = choose|k: int| 0 <= k < present.len() && same_path(#[trigger] present[k], last.0);
            assert(present[k].parts() == last.0.parts());
        } else if exists|k: int|
            0 <= k < present.len() && (#[trigger] present[k]).parts() == last.0.parts() {
            let k = choose|k: int|
                0 <= k < present.len() && (#[trigger] present[k]).parts() == last.0.parts();
            assert(same_path(present[k], last.0));
        }
    }
}

proof fn lemma_target_pushed(s: Seq<TargetView>, x: TargetView, t: TargetView)
    ensures
        s.push(x).contains(t) <==> s.contains(t) || t == x,
{
    let all = s.push(x);
    if s.contains(t) {
        let k = choose|k: int| 0 <= k < s.len() && s[k] == t;
        assert(all[k] == t);
    }
    if t == x {
        assert(all[s.len() as int] == t);
    }
    if all.contains(t) {
        let k = choose|k: int| 0 <= k < all.len() && all[k] == t;
        if k < s.len() {
            assert(s[k] == t);
        }
    }
}

/// What a sweep found first at a path that nothing else names is added as it
/// was found.
pub proof fn an_unclaimed_target_is_added(out: Seq<TargetView>, found: Seq<TargetView>, i: int)
    requires
        0 <= i < found.len(),
        forall|k: int|
            0 <= k < out.len() ==> (#[trigger] out[k]).0.parts() != found[i].0.parts(),
        forall|k: int| 0 <= k < i ==> (#[trigger] found[k]).0.parts() != found[i].0.parts(),
    ensures
        with_unclaimed(out, found).contains(found[i]),
    decreases found.len(),
{
    let front = found.drop_last();
    let so_far = with_unclaimed(out, front);
    let all = with_unclaimed(out, found);
    if i < front.len() {
        assert forall|k: int| 0 <= k < i implies (#[trigger] front[k]).0.parts()
            != front[i].0.parts() by {
            assert(found[k].0.parts() != found[i].0.parts());
        }
        an_unclaimed_target_is_added(out, front, i);
        let k = choose|k: int| 0 <= k < so_far.len() && so_far[k] == found[i];
        assert(all[k] == found[i]);
    } else {
        a_claim_stands(out, front);
        if claims(so_far, found[i].0) {
            let k = choose|k: int|
                0 <= k < so_far.len() && same_path((#[trigger] so_far[k]).0, found[i].0);
            if k < out.len() {
                assert(so_far.subrange(0, out.len() as int)[k] == out[k]);
                assert(out[k].0.parts() == found[i].0.parts());
            } else {
                assert(front.contains(so_far[k]));
                let m = choose|m: int| 0 <= m < front.len() && front[m] == so_far[k];
                assert(found[m].0.parts() == found[i].0.parts());
            }
        }
        assert(all[so_far.len() as int] == found[i]);
    }
}

/// A target inside another, or named before, is not kept; one that lies in no
/// other and was named first is.
pub proof fn an_outermost_target_is_kept(targets: Seq<TargetView>, i: int)
    requires
        0 <= i < targets.len(),
        forall|k: int|
            0 <= k < targets.len() && k != i ==> !is_inside(
                targets[i].0,
                (#[trigger] targets[k]).0,
            ),
    ensures
        outermost(targets).contains(targets[i]),
{
    let path = targets[i].0;
    let r = outermost(targets);
    lemma_inside(path, path, path);
    assert(same_path(targets[i].0, path));
    assert forall|k: int| 0 <= k < targets.len() && is_inside(path, (#[trigger] targets[k]).0) implies
        same_path(targets[k].0, path) by {
        if k != i {
            assert(!is_inside(targets[i].0, targets[k].0));
        }
    }
    only_the_outermost_survive(targets, path);
    let m = choose|m: int| 0 <= m < r.len() && same_path((#[trigger] r[m]).0, path);
    kept_targets_cover_everything(targets);
    assert(targets.contains(r[m]));
    let k = choose|k: int| 0 <= k < targets.len() && targets[k] == r[m];
    if k != i {
        lemma_inside(path, path, path);
        assert(is_inside(targets[i].0, targets[k].0));
    }
    assert(r[m] == targets[i]);
}

} // verus!
