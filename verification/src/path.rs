//! Paths as the sequence of their components, the form in which they are
//! compared, together with the way they are written, in which they are shown.

use vstd::prelude::*;
use vstd::utf8::{
    encode_utf8, encode_utf8_decode_utf8, encode_utf8_valid_utf8, valid_utf8,
};

use crate::order::Ranked;
use crate::text::{
    before, chars_of, lemma_before, lemma_before_at, string_of, text_before, text_is, views,
};

verus! {

broadcast use crate::text::lemma_views_push;

/// One component of a path.
#[derive(Debug)]
pub enum Part {
    /// What makes a path absolute: `/`, or a drive with its separator.
    Root(String),
    /// `.`, which only the start of a path keeps.
    Dot,
    DotDot,
    Name(String),
    /// A name that is not Unicode: its bytes, and the text shown for it.
    Raw(Vec<u8>, String),
}

#[verifier::ext_equal]
pub enum PartView {
    Root(Seq<char>),
    Dot,
    DotDot,
    Name(Seq<char>),
    Raw(Seq<u8>, Seq<char>),
}

impl View for Part {
    type V = PartView;

    open spec fn view(&self) -> PartView {
        match self {
            Part::Root(text) => PartView::Root(text@),
            Part::Dot => PartView::Dot,
            Part::DotDot => PartView::DotDot,
            Part::Name(text) => PartView::Name(text@),
            Part::Raw(bytes, text) => PartView::Raw(bytes@, text@),
        }
    }
}

/// The text that stands for a component.
pub open spec fn part_text(p: PartView) -> Seq<char> {
    match p {
        PartView::Root(text) => text,
        PartView::Dot => "."@,
        PartView::DotDot => ".."@,
        PartView::Name(text) => text,
        PartView::Raw(_, text) => text,
    }
}

/// The component as Unicode text, where it is that.
pub open spec fn unicode(p: PartView) -> Option<Seq<char>> {
    match p {
        PartView::Raw(_, _) => None,
        _ => Some(part_text(p)),
    }
}

/// A component that names an entry of a directory.
pub open spec fn is_name(p: PartView) -> bool {
    p is Name || p is Raw
}

/// The components of a path, which are what two paths are compared by.
pub type Parts = Seq<PartView>;

/// A component where it stands in a written path.
#[derive(Debug)]
pub struct Step {
    /// What is written between the component before it and this one.
    pub gap: String,
    /// The component as it is written.
    pub text: String,
    pub part: Part,
}

#[verifier::ext_equal]
pub struct StepView {
    pub gap: Seq<char>,
    pub text: Seq<char>,
    pub part: PartView,
}

impl View for Step {
    type V = StepView;

    open spec fn view(&self) -> StepView {
        StepView { gap: self.gap@, text: self.text@, part: self.part@ }
    }
}

/// A path. Two paths are the same where their components are, however they are
/// written: `a//b/` is `a/b`.
#[derive(Debug)]
pub struct FsPath {
    pub steps: Vec<Step>,
    /// What is written behind the last component.
    pub tail: String,
    /// The separator of the platform.
    pub sep: char,
}

impl View for FsPath {
    type V = PathView;

    open spec fn view(&self) -> PathView {
        PathView { steps: views(self.steps@), tail: self.tail@, sep: self.sep }
    }
}

/// The components of the steps.
pub open spec fn step_parts(steps: Seq<StepView>) -> Parts {
    Seq::new(steps.len(), |i: int| steps[i].part)
}

/// What is written in these steps.
pub open spec fn steps_text(steps: Seq<StepView>) -> Seq<char>
    decreases steps.len(),
{
    if steps.len() == 0 {
        Seq::empty()
    } else {
        steps_text(steps.drop_last()) + steps.last().gap + steps.last().text
    }
}

/// A path with the way it is written.
#[verifier::ext_equal]
pub struct PathView {
    pub steps: Seq<StepView>,
    pub tail: Seq<char>,
    pub sep: char,
}

impl PathView {
    pub open spec fn parts(self) -> Parts {
        step_parts(self.steps)
    }

    pub open spec fn text(self) -> Seq<char> {
        steps_text(self.steps) + self.tail
    }

    /// The path without its first `n` components, and without what is written
    /// ahead of the first and behind the last that is left.
    pub open spec fn below(self, n: int) -> PathView {
        let rest = self.steps.skip(n);
        PathView {
            steps: if rest.len() == 0 {
                rest
            } else {
                rest.update(0, StepView { gap: Seq::empty(), ..rest[0] })
            },
            tail: Seq::empty(),
            sep: self.sep,
        }
    }

    pub open spec fn is_absolute(self) -> bool {
        self.steps.len() > 0 && self.steps[0].part is Root
    }

    /// A drive without a root, such as `C:`.
    pub open spec fn is_bare_drive(self) -> bool {
        &&& self.steps.len() == 1
        &&& self.steps[0].part is Root
        &&& self.text().len() > 0
        &&& self.text().last() == ':'
    }

    /// A separator is missing in front of what is written next.
    pub open spec fn needs_sep(self) -> bool {
        &&& self.text().len() > 0
        &&& self.text().last() != '/'
        &&& self.text().last() != self.sep
        &&& !self.is_bare_drive()
    }

    /// What stands between this path and what is written next.
    pub open spec fn next_gap(self) -> Seq<char> {
        if self.needs_sep() {
            self.tail.push(self.sep)
        } else {
            self.tail
        }
    }

    /// The entry `name` of this directory.
    pub open spec fn child(self, name: PartView) -> PathView {
        PathView {
            steps: self.steps.push(
                StepView { gap: self.next_gap(), text: part_text(name), part: name },
            ),
            tail: Seq::empty(),
            sep: self.sep,
        }
    }
}

/// The two have the same components, however they are written.
pub open spec fn same_path(a: PathView, b: PathView) -> bool {
    a.parts() == b.parts()
}

// ---------------------------------------------------------------------------
// From text
// ---------------------------------------------------------------------------

pub open spec fn is_rooted(s: Seq<char>) -> bool {
    s.len() > 0 && s[0] == '/'
}

/// What one piece between two separators contributes. Empty pieces vanish, and
/// so does `.` anywhere but at the start.
pub open spec fn piece_parts(piece: Seq<char>, at_start: bool) -> Parts {
    if piece.len() == 0 {
        Seq::empty()
    } else if piece == "."@ {
        if at_start {
            seq![PartView::Dot]
        } else {
            Seq::empty()
        }
    } else if piece == ".."@ {
        seq![PartView::DotDot]
    } else {
        seq![PartView::Name(piece)]
    }
}

/// The components of `s` below its root.
pub open spec fn parts_of(s: Seq<char>, at_start: bool) -> Parts
    decreases s.len(),
{
    if s.len() == 0 {
        Seq::empty()
    } else {
        let piece = before(s, '/');
        if piece.len() < s.len() {
            piece_parts(piece, at_start) + parts_of(s.skip(piece.len() as int + 1), false)
        } else {
            piece_parts(piece, at_start)
        }
    }
}

/// The components of the path that `s` spells, with `/` as the separator.
pub open spec fn text_parts(s: Seq<char>) -> Parts {
    if is_rooted(s) {
        seq![PartView::Root("/"@)] + parts_of(s, false)
    } else {
        parts_of(s, true)
    }
}

/// The components of `s` taken as a path seen from `p`: below it, or on its own
/// where it is absolute.
pub open spec fn joined_parts(p: Parts, s: Seq<char>) -> Parts {
    if is_rooted(s) {
        text_parts(s)
    } else {
        p + parts_of(s, p.len() == 0)
    }
}

/// The component that a piece between two separators stands for, if any.
pub open spec fn piece_part(piece: Seq<char>, at_start: bool) -> Option<PartView> {
    if piece.len() == 0 {
        None
    } else if piece == "."@ {
        if at_start {
            Some(PartView::Dot)
        } else {
            None
        }
    } else if piece == ".."@ {
        Some(PartView::DotDot)
    } else {
        Some(PartView::Name(piece))
    }
}

/// The steps that `s` is written in, with `gap` written ahead of it.
pub open spec fn steps_of(s: Seq<char>, gap: Seq<char>, at_start: bool) -> Seq<StepView>
    decreases s.len(),
{
    if s.len() == 0 {
        Seq::empty()
    } else {
        let piece = before(s, '/');
        let rest = s.skip(piece.len() as int + 1);
        match piece_part(piece, at_start) {
            Some(part) => seq![StepView { gap, text: piece, part }] + if piece.len() < s.len() {
                steps_of(rest, "/"@, false)
            } else {
                Seq::empty()
            },
            None => if piece.len() < s.len() {
                steps_of(rest, gap + piece + "/"@, false)
            } else {
                Seq::empty()
            },
        }
    }
}

/// What is written behind the last component of `s`, with `gap` written ahead
/// of it.
pub open spec fn tail_of(s: Seq<char>, gap: Seq<char>, at_start: bool) -> Seq<char>
    decreases s.len(),
{
    if s.len() == 0 {
        gap
    } else {
        let piece = before(s, '/');
        let rest = s.skip(piece.len() as int + 1);
        match piece_part(piece, at_start) {
            Some(part) => if piece.len() < s.len() {
                tail_of(rest, "/"@, false)
            } else {
                Seq::empty()
            },
            None => if piece.len() < s.len() {
                tail_of(rest, gap + piece + "/"@, false)
            } else {
                gap + piece
            },
        }
    }
}

pub open spec fn root_step(text: Seq<char>) -> StepView {
    StepView { gap: Seq::empty(), text, part: PartView::Root(text) }
}

/// A root on its own.
pub open spec fn root_path(text: Seq<char>, sep: char) -> PathView {
    PathView { steps: seq![root_step(text)], tail: Seq::empty(), sep }
}

/// The path that `s` spells, with `/` as the separator.
pub open spec fn path_of(s: Seq<char>) -> PathView {
    path_at(s, '/')
}

/// The path that `s` spells with `/` between its components, on a platform whose
/// own separator is `sep`.
pub open spec fn path_at(s: Seq<char>, sep: char) -> PathView {
    if is_rooted(s) {
        PathView {
            steps: seq![root_step("/"@)] + steps_of(s.skip(1), Seq::empty(), false),
            tail: tail_of(s.skip(1), Seq::empty(), false),
            sep,
        }
    } else {
        PathView {
            steps: steps_of(s, Seq::empty(), true),
            tail: tail_of(s, Seq::empty(), true),
            sep,
        }
    }
}

/// `s` taken as a path seen from `p`: written behind it, or on its own where it
/// is absolute.
pub open spec fn path_join(p: PathView, s: Seq<char>) -> PathView {
    if is_rooted(s) {
        path_at(s, p.sep)
    } else {
        PathView {
            steps: p.steps + steps_of(s, p.next_gap(), p.steps.len() == 0),
            tail: tail_of(s, p.next_gap(), p.steps.len() == 0),
            sep: p.sep,
        }
    }
}

proof fn lemma_steps_text_first(x: StepView, rest: Seq<StepView>)
    ensures
        steps_text(seq![x] + rest) == x.gap + x.text + steps_text(rest),
    decreases rest.len(),
{
    let all = seq![x] + rest;
    if rest.len() == 0 {
        assert(all.drop_last() =~= Seq::empty());
        assert(all.last() == x);
        assert(steps_text(all.drop_last()) =~= Seq::empty());
        assert(steps_text(rest) =~= Seq::empty());
        assert(steps_text(all) =~= x.gap + x.text + steps_text(rest));
    } else {
        lemma_steps_text_first(x, rest.drop_last());
        assert(all.drop_last() =~= seq![x] + rest.drop_last());
        assert(steps_text(all) =~= x.gap + x.text + steps_text(rest));
    }
}

proof fn lemma_steps_of(s: Seq<char>, gap: Seq<char>, at_start: bool)
    ensures
        step_parts(steps_of(s, gap, at_start)) == parts_of(s, at_start),
        steps_text(steps_of(s, gap, at_start)) + tail_of(s, gap, at_start) == gap + s,
    decreases s.len(),
{
    let steps = steps_of(s, gap, at_start);
    if s.len() == 0 {
        assert(step_parts(steps) =~= parts_of(s, at_start));
        assert(steps_text(steps) + tail_of(s, gap, at_start) =~= gap + s);
    } else {
        let piece = before(s, '/');
        let rest = s.skip(piece.len() as int + 1);
        lemma_before(s, '/');
        reveal_strlit("/");
        assert("/"@ =~= seq!['/']);
        let more = piece.len() < s.len();
        if more {
            assert(s =~= piece + "/"@ + rest);
        } else {
            assert(s =~= piece);
        }
        match piece_part(piece, at_start) {
            Some(part) => {
                let x = StepView { gap, text: piece, part };
                if more {
                    lemma_steps_of(rest, "/"@, false);
                    lemma_steps_text_first(x, steps_of(rest, "/"@, false));
                    assert(steps_text(steps) + tail_of(s, gap, at_start) =~= gap + piece + (
                    steps_text(steps_of(rest, "/"@, false)) + tail_of(rest, "/"@, false)));
                    assert(gap + piece + ("/"@ + rest) =~= gap + s);
                } else {
                    lemma_steps_text_first(x, Seq::empty());
                    assert(steps_text(steps) + tail_of(s, gap, at_start) =~= gap + s);
                }
                assert(step_parts(steps) =~= parts_of(s, at_start));
            },
            None => {
                if more {
                    lemma_steps_of(rest, gap + piece + "/"@, false);
                    assert(gap + piece + "/"@ + rest =~= gap + s);
                    assert(step_parts(steps) =~= parts_of(s, at_start));
                } else {
                    assert(steps_text(steps) + tail_of(s, gap, at_start) =~= gap + s);
                    assert(step_parts(steps) =~= parts_of(s, at_start));
                }
            },
        }
    }
}

/// A path is shown as it was written, whatever its components are.
pub proof fn a_path_is_shown_as_written(s: Seq<char>, sep: char)
    ensures
        path_at(s, sep).text() == s,
        path_at(s, sep).parts() == text_parts(s),
{
    let p = path_at(s, sep);
    let none = Seq::<char>::empty();
    if is_rooted(s) {
        let rest = s.skip(1);
        let steps = steps_of(rest, none, false);
        lemma_steps_of(rest, none, false);
        lemma_steps_text_first(root_step("/"@), steps);
        reveal_strlit("/");
        assert("/"@ =~= seq!['/']);
        assert(p.text() =~= "/"@ + (steps_text(steps) + tail_of(rest, none, false)));
        assert("/"@ + rest =~= s);
        assert(none + rest =~= rest);
        lemma_rooted_parts(s);
        assert(p.parts() =~= text_parts(s));
    } else {
        lemma_steps_of(s, none, true);
        assert(none + s =~= s);
    }
}

proof fn lemma_rooted_parts(s: Seq<char>)
    requires
        is_rooted(s),
    ensures
        parts_of(s, false) == parts_of(s.skip(1), false),
{
    lemma_before_at(s, '/', 0);
    let piece = before(s, '/');
    assert(piece.len() == 0);
    assert(piece_parts(piece, false) + parts_of(s.skip(1), false) =~= parts_of(s.skip(1), false));
}

proof fn lemma_joined_steps_text(a: Seq<StepView>, b: Seq<StepView>)
    ensures
        steps_text(a + b) == steps_text(a) + steps_text(b),
    decreases b.len(),
{
    if b.len() == 0 {
        assert(a + b =~= a);
        assert(steps_text(a) + steps_text(b) =~= steps_text(a));
    } else {
        lemma_joined_steps_text(a, b.drop_last());
        assert((a + b).drop_last() =~= a + b.drop_last());
        assert(steps_text(a + b) =~= steps_text(a) + steps_text(b));
    }
}

/// What is joined to a path is written behind it, with a separator in between
/// where one is missing.
pub proof fn a_joined_path_is_written_behind(p: PathView, s: Seq<char>)
    ensures
        path_join(p, s).parts() == joined_parts(p.parts(), s),
        is_rooted(s) ==> path_join(p, s).text() == s,
        !is_rooted(s) ==> path_join(p, s).text() == (if p.needs_sep() {
            p.text().push(p.sep) + s
        } else {
            p.text() + s
        }),
{
    if is_rooted(s) {
        a_path_is_shown_as_written(s, p.sep);
    } else {
        let gap = p.next_gap();
        let at_start = p.steps.len() == 0;
        let steps = steps_of(s, gap, at_start);
        lemma_steps_of(s, gap, at_start);
        lemma_joined_steps_text(p.steps, steps);
        assert(path_join(p, s).text() =~= steps_text(p.steps) + (steps_text(steps) + tail_of(
            s,
            gap,
            at_start,
        )));
        assert(steps_text(p.steps) + (gap + s) =~= if p.needs_sep() {
            p.text().push(p.sep) + s
        } else {
            p.text() + s
        });
        assert(path_join(p, s).parts() =~= joined_parts(p.parts(), s));
    }
}

/// The path below `p` that the pieces of `s` lead to, each joined in turn.
pub open spec fn descend_from(p: PathView, s: Seq<char>) -> PathView
    decreases s.len(),
{
    if s.len() == 0 {
        p
    } else {
        let piece = before(s, '/');
        let inner = path_join(p, piece);
        if piece.len() < s.len() {
            descend_from(inner, s.skip(piece.len() as int + 1))
        } else {
            inner
        }
    }
}

/// The path below `p` that `s` leads to, written with the separator of the
/// platform.
pub open spec fn path_descend(p: PathView, s: Seq<char>) -> PathView {
    if is_rooted(s) {
        path_join(p, s)
    } else {
        descend_from(p, s)
    }
}

proof fn lemma_piece(s: Seq<char>, at_start: bool)
    ensures
        !is_rooted(before(s, '/')),
        parts_of(before(s, '/'), at_start) == piece_parts(before(s, '/'), at_start),
{
    let piece = before(s, '/');
    lemma_before(s, '/');
    if piece.len() > 0 {
        assert(piece[0] != '/');
        lemma_before_at(piece, '/', piece.len() as int);
        assert(piece.take(piece.len() as int) =~= piece);
    }
}

proof fn lemma_descend(p: PathView, s: Seq<char>)
    requires
        p.steps.len() > 0 || !is_rooted(s),
    ensures
        descend_from(p, s).parts() == p.parts() + parts_of(s, p.steps.len() == 0),
    decreases s.len(),
{
    let at_start = p.steps.len() == 0;
    if s.len() == 0 {
        assert(p.parts() + parts_of(s, at_start) =~= p.parts());
    } else {
        let piece = before(s, '/');
        let inner = path_join(p, piece);
        lemma_before(s, '/');
        lemma_piece(s, at_start);
        a_joined_path_is_written_behind(p, piece);
        assert(inner.parts() == p.parts() + piece_parts(piece, at_start));
        if at_start {
            assert(piece.len() > 0) by {
                if piece.len() == 0 {
                    assert(s[0] == '/');
                }
            }
            assert(inner.parts().len() > 0);
        }
        assert(inner.steps.len() == inner.parts().len());
        if piece.len() < s.len() {
            let rest = s.skip(piece.len() as int + 1);
            lemma_descend(inner, rest);
            assert(descend_from(p, s).parts() =~= p.parts() + parts_of(s, at_start));
        }
    }
}

/// Descending leads to the same components as joining the whole text.
pub proof fn descending_is_joining(p: PathView, s: Seq<char>)
    ensures
        path_descend(p, s).parts() == joined_parts(p.parts(), s),
{
    if is_rooted(s) {
        a_joined_path_is_written_behind(p, s);
    } else {
        lemma_descend(p, s);
    }
}

// ---------------------------------------------------------------------------
// Parts of a path
// ---------------------------------------------------------------------------

pub open spec fn path_parent(p: PathView) -> Option<PathView> {
    if p.steps.len() == 0 || p.steps.last().part is Root {
        None
    } else {
        Some(PathView { steps: p.steps.drop_last(), tail: Seq::empty(), sep: p.sep })
    }
}

pub open spec fn path_file_name(p: PathView) -> Option<PartView> {
    if p.steps.len() > 0 && is_name(p.steps.last().part) {
        Some(p.steps.last().part)
    } else {
        None
    }
}

/// The position of the last dot, or -1.
pub open spec fn last_dot(s: Seq<char>) -> int
    decreases s.len(),
{
    if s.len() == 0 {
        -1
    } else if s.last() == '.' {
        s.len() - 1
    } else {
        last_dot(s.drop_last())
    }
}

/// What follows the last dot of a name, unless nothing precedes it.
pub open spec fn extension_of(name: Seq<char>) -> Option<Seq<char>> {
    if last_dot(name) >= 1 {
        Some(name.skip(last_dot(name) + 1))
    } else {
        None
    }
}

pub open spec fn path_extension(p: PathView) -> Option<Seq<char>> {
    match path_file_name(p) {
        Some(name) => extension_of(part_text(name)),
        None => None,
    }
}

/// `p` is `base` or lies inside it. Whole components count: `/a/bc` is not
/// inside `/a/b`.
pub open spec fn is_inside(p: PathView, base: PathView) -> bool {
    base.parts().is_prefix_of(p.parts())
}

// ---------------------------------------------------------------------------
// Order
// ---------------------------------------------------------------------------

pub open spec fn bytes_leq(a: Seq<u8>, b: Seq<u8>) -> bool
    decreases a.len(),
{
    if a.len() == 0 {
        true
    } else if b.len() == 0 {
        false
    } else if a[0] != b[0] {
        a[0] < b[0]
    } else {
        bytes_leq(a.drop_first(), b.drop_first())
    }
}

pub open spec fn part_rank(p: PartView) -> int {
    match p {
        PartView::Root(_) => 0,
        PartView::Dot => 1,
        PartView::DotDot => 2,
        PartView::Name(_) => 3,
        PartView::Raw(_, _) => 3,
    }
}

pub open spec fn part_bytes(p: PartView) -> Seq<u8> {
    match p {
        PartView::Root(text) => encode_utf8(text),
        PartView::Name(text) => encode_utf8(text),
        PartView::Raw(bytes, _) => bytes,
        _ => Seq::empty(),
    }
}

pub open spec fn part_alike(a: PartView, b: PartView) -> bool {
    part_rank(a) == part_rank(b) && part_bytes(a) == part_bytes(b)
}

pub open spec fn part_leq(a: PartView, b: PartView) -> bool {
    ||| part_rank(a) < part_rank(b)
    ||| part_rank(a) == part_rank(b) && bytes_leq(part_bytes(a), part_bytes(b))
}

/// Component by component, the first difference deciding; a path comes before
/// everything inside it.
pub open spec fn path_leq(a: PathView, b: PathView) -> bool {
    parts_leq(a.parts(), b.parts())
}

pub open spec fn parts_leq(a: Parts, b: Parts) -> bool
    decreases a.len(),
{
    if a.len() == 0 {
        true
    } else if b.len() == 0 {
        false
    } else if part_alike(a[0], b[0]) {
        parts_leq(a.drop_first(), b.drop_first())
    } else {
        part_leq(a[0], b[0])
    }
}

proof fn lemma_bytes_total(a: Seq<u8>, b: Seq<u8>)
    ensures
        bytes_leq(a, b) || bytes_leq(b, a),
        bytes_leq(a, b) && bytes_leq(b, a) ==> a == b,
    decreases a.len(),
{
    if a.len() > 0 && b.len() > 0 {
        lemma_bytes_total(a.drop_first(), b.drop_first());
        if a[0] == b[0] && a.drop_first() == b.drop_first() {
            assert(a =~= seq![a[0]] + a.drop_first());
            assert(b =~= seq![b[0]] + b.drop_first());
        }
    } else if a.len() == 0 && b.len() == 0 {
        assert(a =~= b);
    }
}

proof fn lemma_bytes_transitive(a: Seq<u8>, b: Seq<u8>, c: Seq<u8>)
    requires
        bytes_leq(a, b),
        bytes_leq(b, c),
    ensures
        bytes_leq(a, c),
    decreases a.len(),
{
    if a.len() > 0 && b.len() > 0 && c.len() > 0 && a[0] == b[0] && b[0] == c[0] {
        lemma_bytes_transitive(a.drop_first(), b.drop_first(), c.drop_first());
    }
}

proof fn lemma_part_order(a: PartView, b: PartView)
    ensures
        part_leq(a, b) || part_leq(b, a),
        part_leq(a, b) && part_leq(b, a) ==> part_alike(a, b),
        part_alike(a, b) ==> part_leq(a, b),
{
    lemma_bytes_total(part_bytes(a), part_bytes(b));
}

proof fn lemma_part_transitive(a: PartView, b: PartView, c: PartView)
    requires
        part_leq(a, b),
        part_leq(b, c),
    ensures
        part_leq(a, c),
{
    if part_rank(a) == part_rank(b) && part_rank(b) == part_rank(c) {
        lemma_bytes_transitive(part_bytes(a), part_bytes(b), part_bytes(c));
    }
}

proof fn lemma_parts_total(a: Parts, b: Parts)
    ensures
        parts_leq(a, b) || parts_leq(b, a),
    decreases a.len(),
{
    if a.len() > 0 && b.len() > 0 {
        lemma_part_order(a[0], b[0]);
        lemma_parts_total(a.drop_first(), b.drop_first());
    }
}

proof fn lemma_parts_transitive(a: Parts, b: Parts, c: Parts)
    requires
        parts_leq(a, b),
        parts_leq(b, c),
    ensures
        parts_leq(a, c),
    decreases a.len(),
{
    if a.len() > 0 && b.len() > 0 && c.len() > 0 {
        lemma_part_order(a[0], b[0]);
        lemma_part_order(b[0], c[0]);
        lemma_part_order(a[0], c[0]);
        lemma_part_transitive(a[0], b[0], c[0]);
        if part_alike(a[0], b[0]) && part_alike(b[0], c[0]) {
            lemma_parts_transitive(a.drop_first(), b.drop_first(), c.drop_first());
        } else if part_alike(a[0], c[0]) {
            lemma_part_order(c[0], a[0]);
            lemma_part_transitive(b[0], c[0], a[0]);
            lemma_part_transitive(c[0], a[0], b[0]);
        }
    }
}

pub proof fn lemma_path_total(a: PathView, b: PathView)
    ensures
        path_leq(a, b) || path_leq(b, a),
{
    lemma_parts_total(a.parts(), b.parts());
}

pub proof fn lemma_path_transitive(a: PathView, b: PathView, c: PathView)
    requires
        path_leq(a, b),
        path_leq(b, c),
    ensures
        path_leq(a, c),
{
    lemma_parts_transitive(a.parts(), b.parts(), c.parts());
}

/// The component is as the file system gives it: a raw name is one whose bytes
/// are not Unicode, and the text shown for it is what `lossy` makes of them.
pub open spec fn is_faithful(p: PartView, lossy: spec_fn(Seq<u8>) -> Seq<char>) -> bool {
    match p {
        PartView::Raw(bytes, text) => !valid_utf8(bytes) && text == lossy(bytes),
        _ => true,
    }
}

pub open spec fn are_faithful(p: Parts, lossy: spec_fn(Seq<u8>) -> Seq<char>) -> bool {
    forall|i: int| 0 <= i < p.len() ==> is_faithful(#[trigger] p[i], lossy)
}

proof fn lemma_alike_is_same(a: PartView, b: PartView, lossy: spec_fn(Seq<u8>) -> Seq<char>)
    requires
        part_alike(a, b),
        is_faithful(a, lossy),
        is_faithful(b, lossy),
    ensures
        a == b,
{
    match a {
        PartView::Root(x) | PartView::Name(x) => {
            encode_utf8_decode_utf8(x);
            encode_utf8_valid_utf8(x);
        },
        _ => {},
    }
    match b {
        PartView::Root(y) | PartView::Name(y) => {
            encode_utf8_decode_utf8(y);
            encode_utf8_valid_utf8(y);
        },
        _ => {},
    }
}

/// Of two different paths only one comes first.
pub proof fn lemma_parts_antisymmetric(
    a: Parts,
    b: Parts,
    lossy: spec_fn(Seq<u8>) -> Seq<char>,
)
    requires
        are_faithful(a, lossy),
        are_faithful(b, lossy),
        parts_leq(a, b),
        parts_leq(b, a),
    ensures
        a == b,
    decreases a.len(),
{
    if a.len() == 0 || b.len() == 0 {
        assert(a =~= b);
    } else {
        lemma_part_order(a[0], b[0]);
        assert(part_alike(a[0], b[0]));
        lemma_alike_is_same(a[0], b[0], lossy);
        let a1 = a.drop_first();
        let b1 = b.drop_first();
        assert forall|i: int| 0 <= i < a1.len() implies is_faithful(#[trigger] a1[i], lossy) by {
            assert(is_faithful(a[i + 1], lossy));
        }
        assert forall|i: int| 0 <= i < b1.len() implies is_faithful(#[trigger] b1[i], lossy) by {
            assert(is_faithful(b[i + 1], lossy));
        }
        lemma_parts_antisymmetric(a1, b1, lossy);
        assert(a =~= seq![a[0]] + a1);
        assert(b =~= seq![b[0]] + b1);
    }
}

proof fn lemma_prefix_first(p: Parts, base: Parts)
    requires
        base.is_prefix_of(p),
    ensures
        parts_leq(base, p),
        parts_leq(p, base) ==> p == base,
    decreases base.len(),
{
    if base.len() > 0 {
        assert(p[0] == base[0]) by {
            assert(p.subrange(0, base.len() as int)[0] == base[0]);
        }
        let p1 = p.drop_first();
        let b1 = base.drop_first();
        assert(p1.subrange(0, b1.len() as int) =~= b1) by {
            assert forall|i: int| 0 <= i < b1.len() implies p1[i] == b1[i] by {
                assert(p.subrange(0, base.len() as int)[i + 1] == base[i + 1]);
            }
        }
        lemma_prefix_first(p1, b1);
        if p1 == b1 {
            assert(p =~= base);
        }
    } else if p.len() == 0 {
        assert(p =~= base);
    }
}

/// An ancestor comes before everything under it, and only it does.
pub proof fn lemma_ancestor_first(p: PathView, base: PathView)
    requires
        is_inside(p, base),
    ensures
        path_leq(base, p),
        path_leq(p, base) ==> same_path(p, base),
{
    lemma_prefix_first(p.parts(), base.parts());
}

/// Being inside is passed on outwards, and a path is inside itself.
pub proof fn lemma_inside(a: PathView, b: PathView, c: PathView)
    ensures
        is_inside(a, a),
        is_inside(a, b) && is_inside(b, c) ==> is_inside(a, c),
        is_inside(a, b) && is_inside(b, a) ==> same_path(a, b),
{
    let p = a.parts();
    let q = b.parts();
    let r = c.parts();
    assert(p.subrange(0, p.len() as int) =~= p);
    if is_inside(a, b) && is_inside(b, c) {
        assert(p.subrange(0, r.len() as int) =~= r) by {
            assert forall|i: int| 0 <= i < r.len() implies p[i] == r[i] by {
                assert(p.subrange(0, q.len() as int)[i] == q[i]);
                assert(q.subrange(0, r.len() as int)[i] == r[i]);
            }
        }
    }
    if is_inside(a, b) && is_inside(b, a) {
        assert(p =~= q);
    }
}

// ---------------------------------------------------------------------------
// Code
// ---------------------------------------------------------------------------

fn same_bytes(a: &Vec<u8>, b: &Vec<u8>) -> (r: bool)
    ensures
        r == (a@ == b@),
{
    if a.len() != b.len() {
        return false;
    }
    for i in 0..a.len()
        invariant
            a.len() == b.len(),
            forall|j: int| 0 <= j < i ==> a@[j] == b@[j],
    {
        if a[i] != b[i] {
            return false;
        }
    }
    assert(a@ =~= b@);
    true
}

fn copy_bytes(a: &Vec<u8>) -> (r: Vec<u8>)
    ensures
        r@ == a@,
{
    let mut out: Vec<u8> = Vec::new();
    for i in 0..a.len()
        invariant
            out@ == a@.take(i as int),
    {
        out.push(a[i]);
    }
    assert(a@.take(a.len() as int) =~= a@);
    out
}

fn le_bytes(a: &[u8], b: &[u8]) -> (r: bool)
    ensures
        r == bytes_leq(a@, b@),
{
    let mut i: usize = 0;
    assert(a@.skip(0) =~= a@);
    assert(b@.skip(0) =~= b@);
    while i < a.len() && i < b.len()
        invariant
            i <= a.len(),
            i <= b.len(),
            bytes_leq(a@, b@) == bytes_leq(a@.skip(i as int), b@.skip(i as int)),
        decreases a.len() - i,
    {
        if a[i] != b[i] {
            return a[i] < b[i];
        }
        assert(a@.skip(i as int).drop_first() =~= a@.skip(i + 1));
        assert(b@.skip(i as int).drop_first() =~= b@.skip(i + 1));
        i = i + 1;
    }
    i == a.len()
}

impl Clone for Part {
    fn clone(&self) -> (r: Self)
        ensures
            r@ == self@,
    {
        match self {
            Part::Root(text) => Part::Root(text.clone()),
            Part::Dot => Part::Dot,
            Part::DotDot => Part::DotDot,
            Part::Name(text) => Part::Name(text.clone()),
            Part::Raw(bytes, text) => Part::Raw(copy_bytes(bytes), text.clone()),
        }
    }
}

impl Part {
    /// The entry name that `text` spells.
    pub fn name(text: &str) -> (r: Part)
        ensures
            r@ == PartView::Name(text@),
    {
        Part::Name(text.to_owned())
    }

    pub fn same(&self, other: &Part) -> (r: bool)
        ensures
            r == (self@ == other@),
    {
        match (self, other) {
            (Part::Root(a), Part::Root(b)) => *a == *b,
            (Part::Dot, Part::Dot) => true,
            (Part::DotDot, Part::DotDot) => true,
            (Part::Name(a), Part::Name(b)) => *a == *b,
            (Part::Raw(a, s), Part::Raw(b, t)) => same_bytes(a, b) && *s == *t,
            _ => false,
        }
    }

    pub fn text(&self) -> (r: String)
        ensures
            r@ == part_text(self@),
    {
        match self {
            Part::Root(text) => text.clone(),
            Part::Dot => ".".to_owned(),
            Part::DotDot => "..".to_owned(),
            Part::Name(text) => text.clone(),
            Part::Raw(_, text) => text.clone(),
        }
    }

    pub fn to_str(&self) -> (r: Option<String>)
        ensures
            r matches Some(text) ==> unicode(self@) == Some(text@),
            r is None ==> unicode(self@) is None,
    {
        match self {
            Part::Raw(_, _) => None,
            _ => Some(self.text()),
        }
    }

    /// Whether this is the Unicode text `text`.
    pub fn is(&self, text: &str) -> (r: bool)
        ensures
            r == (unicode(self@) == Some(text@)),
    {
        match self.to_str() {
            Some(own) => text_is(&own, text),
            None => false,
        }
    }

    fn rank(&self) -> (r: u8)
        ensures
            r == part_rank(self@),
    {
        match self {
            Part::Root(_) => 0,
            Part::Dot => 1,
            Part::DotDot => 2,
            Part::Name(_) => 3,
            Part::Raw(_, _) => 3,
        }
    }

    fn bytes(&self) -> (r: &[u8])
        ensures
            r@ == part_bytes(self@),
    {
        match self {
            Part::Root(text) => text.as_str().as_bytes(),
            Part::Name(text) => text.as_str().as_bytes(),
            Part::Raw(bytes, _) => bytes.as_slice(),
            _ => {
                assert(encode_utf8(""@) =~= Seq::<u8>::empty()) by {
                    reveal_strlit("");
                    reveal_with_fuel(encode_utf8, 1);
                }
                "".as_bytes()
            },
        }
    }
}

impl Clone for Step {
    fn clone(&self) -> (r: Self)
        ensures
            r@ == self@,
    {
        Step { gap: self.gap.clone(), text: self.text.clone(), part: self.part.clone() }
    }
}

/// The steps from `from` up to `to`.
fn some_steps(steps: &Vec<Step>, from: usize, to: usize) -> (r: Vec<Step>)
    requires
        from <= to <= steps@.len(),
    ensures
        views(r@) == views(steps@).subrange(from as int, to as int),
{
    let mut out: Vec<Step> = Vec::new();
    for i in from..to
        invariant
            from <= to <= steps@.len(),
            views(out@) =~= views(steps@).subrange(from as int, i as int),
    {
        out.push(steps[i].clone());
    }
    out
}

impl Clone for FsPath {
    fn clone(&self) -> (r: Self)
        ensures
            r@ == self@,
    {
        let steps = some_steps(&self.steps, 0, self.steps.len());
        let r = FsPath { steps, tail: self.tail.clone(), sep: self.sep };
        assert(r@ =~= self@);
        r
    }
}

fn part_of_piece(piece: &String, at_start: bool) -> (r: Option<Part>)
    ensures
        r matches Some(part) ==> piece_part(piece@, at_start) == Some(part@),
        r is None ==> piece_part(piece@, at_start) is None,
{
    if piece.as_str().is_empty() {
        None
    } else if text_is(piece, ".") {
        if at_start {
            Some(Part::Dot)
        } else {
            None
        }
    } else if text_is(piece, "..") {
        Some(Part::DotDot)
    } else {
        Some(Part::Name(piece.clone()))
    }
}

/// Puts the steps of `text` behind those that are there, and returns what is
/// written behind the last one.
fn push_steps(steps: &mut Vec<Step>, text: &str, gap: String, at_start: bool) -> (tail: String)
    ensures
        views(final(steps)@) == views(old(steps)@) + steps_of(text@, gap@, at_start),
        tail@ == tail_of(text@, gap@, at_start),
{
    let chars = chars_of(text);
    let n = chars.len();
    let mut i: usize = 0;
    let mut first = at_start;
    let ghost want = views(steps@) + steps_of(text@, gap@, at_start);
    let ghost want_tail = tail_of(text@, gap@, at_start);
    let mut gap = gap;
    assert(chars@.skip(0) =~= text@);
    while i < n
        invariant
            n == chars.len(),
            i <= n,
            views(steps@) + steps_of(chars@.skip(i as int), gap@, first) == want,
            tail_of(chars@.skip(i as int), gap@, first) == want_tail,
        decreases n - i,
    {
        let ghost left = chars@.skip(i as int);
        let ghost had = views(steps@);
        let ghost had_gap = gap@;
        let rest = string_of(&chars, i, n);
        assert(rest@ =~= left);
        let piece = text_before(rest.as_str(), '/');
        let len = chars_of(piece.as_str()).len();
        proof {
            lemma_before(left, '/');
        }
        let more = len < n - i;
        let ghost found = piece_part(piece@, first);
        match part_of_piece(&piece, first) {
            Some(part) => {
                steps.push(Step { gap, text: piece, part });
                gap = String::new();
                if more {
                    gap.append("/");
                }
                assert(gap@ =~= if more {
                    "/"@
                } else {
                    Seq::empty()
                });
            },
            None => {
                gap.append(piece.as_str());
                if more {
                    gap.append("/");
                }
            },
        }
        if more {
            let ghost rest_text = chars@.skip(i + len + 1);
            assert(left.skip(len as int + 1) =~= rest_text);
            assert(had + steps_of(left, had_gap, first) =~= views(steps@) + steps_of(
                rest_text,
                gap@,
                false,
            ));
            i = i + len + 1;
        } else {
            assert(chars@.skip(n as int) =~= Seq::empty());
            assert(had + steps_of(left, had_gap, first) =~= views(steps@) + steps_of(
                Seq::empty(),
                gap@,
                false,
            ));
            i = n;
        }
        first = false;
    }
    assert(chars@.skip(i as int) =~= Seq::empty());
    assert(views(steps@) + steps_of(chars@.skip(i as int), gap@, first) =~= views(steps@));
    gap
}

fn rooted(text: &str) -> (r: bool)
    ensures
        r == is_rooted(text@),
{
    let r = crate::text::starts_with(text, "/");
    proof {
        reveal_strlit("/");
        assert("/"@ =~= seq!['/']);
        if text@.len() > 0 {
            assert(text@.subrange(0, 1) =~= seq![text@[0]]);
            assert(text@.subrange(0, 1)[0] == text@[0]);
        }
    }
    r
}

impl FsPath {
    /// The path that `text` spells, with `/` as the separator.
    pub fn new(text: &str) -> (r: FsPath)
        ensures
            r@ == path_of(text@),
    {
        FsPath::spelt(text, '/')
    }

    /// The path that `text` spells with `/` between its components, on a
    /// platform whose own separator is `sep`.
    fn spelt(text: &str, sep: char) -> (r: FsPath)
        ensures
            r@ == path_at(text@, sep),
    {
        let mut steps: Vec<Step> = Vec::new();
        if rooted(text) {
            steps.push(
                Step { gap: String::new(), text: "/".to_owned(), part: Part::Root("/".to_owned()) },
            );
            assert(views(steps@) =~= seq![root_step("/"@)]);
            let chars = chars_of(text);
            let rest = string_of(&chars, 1, chars.len());
            assert(rest@ =~= text@.skip(1));
            let tail = push_steps(&mut steps, rest.as_str(), String::new(), false);
            let r = FsPath { steps, tail, sep };
            assert(r@ =~= path_at(text@, sep));
            r
        } else {
            let tail = push_steps(&mut steps, text, String::new(), true);
            let r = FsPath { steps, tail, sep };
            assert(r@ =~= path_at(text@, sep));
            r
        }
    }

    /// The root `text`, on a platform whose separator is `sep`.
    pub fn root(text: &str, sep: char) -> (r: FsPath)
        ensures
            r@ == root_path(text@, sep),
    {
        let steps: Vec<Step> = vec![
            Step { gap: String::new(), text: text.to_owned(), part: Part::Root(text.to_owned()) },
        ];
        let r = FsPath { steps, tail: String::new(), sep };
        assert(r@ =~= root_path(text@, sep));
        r
    }

    /// What has to be written behind this path before anything else.
    fn gap_behind(&self) -> (r: String)
        ensures
            r@ == self@.next_gap(),
    {
        let text = chars_of(self.display().as_str());
        let n = text.len();
        let mut gap = self.tail.clone();
        if n == 0 {
            return gap;
        }
        let last = text[n - 1];
        let bare_drive = self.steps.len() == 1 && last == ':' && match &self.steps[0].part {
            Part::Root(_) => true,
            _ => false,
        };
        assert(bare_drive == self@.is_bare_drive());
        if last != '/' && last != self.sep && !bare_drive {
            gap.push(self.sep);
        }
        gap
    }

    pub fn join(&self, text: &str) -> (r: FsPath)
        ensures
            r@ == path_join(self@, text@),
    {
        if rooted(text) {
            FsPath::spelt(text, self.sep)
        } else {
            let mut steps = some_steps(&self.steps, 0, self.steps.len());
            assert(views(steps@) =~= self@.steps);
            let at_start = self.steps.len() == 0;
            let tail = push_steps(&mut steps, text, self.gap_behind(), at_start);
            let r = FsPath { steps, tail, sep: self.sep };
            assert(r@ =~= path_join(self@, text@));
            r
        }
    }

    /// The path below this one that `text` leads to, written with the separator
    /// of the platform.
    pub fn descend(&self, text: &str) -> (r: FsPath)
        ensures
            r@ == path_descend(self@, text@),
    {
        if rooted(text) {
            return self.join(text);
        }
        let chars = chars_of(text);
        let n = chars.len();
        let mut i: usize = 0;
        let mut out = self.clone();
        assert(chars@.skip(0) =~= text@);
        while i < n
            invariant
                n == chars.len(),
                i <= n,
                descend_from(out@, chars@.skip(i as int)) == descend_from(self@, text@),
            decreases n - i,
        {
            let ghost left = chars@.skip(i as int);
            let rest = string_of(&chars, i, n);
            assert(rest@ =~= left);
            let piece = text_before(rest.as_str(), '/');
            let len = chars_of(piece.as_str()).len();
            proof {
                lemma_before(left, '/');
            }
            out = out.join(piece.as_str());
            if len < n - i {
                assert(left.skip(len as int + 1) =~= chars@.skip(i + len + 1));
                i = i + len + 1;
            } else {
                assert(chars@.skip(n as int) =~= Seq::empty());
                i = n;
            }
        }
        assert(chars@.skip(i as int) =~= Seq::empty());
        out
    }

    /// The entry `name` of this directory.
    pub fn child(&self, name: &Part) -> (r: FsPath)
        ensures
            r@ == self@.child(name@),
    {
        let mut steps = some_steps(&self.steps, 0, self.steps.len());
        assert(views(steps@) =~= self@.steps);
        steps.push(Step { gap: self.gap_behind(), text: name.text(), part: name.clone() });
        let r = FsPath { steps, tail: String::new(), sep: self.sep };
        assert(r@ =~= self@.child(name@));
        r
    }

    pub fn parent(&self) -> (r: Option<FsPath>)
        ensures
            r matches Some(p) ==> path_parent(self@) == Some(p@),
            r is None ==> path_parent(self@) is None,
    {
        let n = self.steps.len();
        if n == 0 {
            return None;
        }
        assert(self@.steps.last() == self.steps@[n - 1]@);
        if let Part::Root(_) = &self.steps[n - 1].part {
            return None;
        }
        let steps = some_steps(&self.steps, 0, n - 1);
        let r = FsPath { steps, tail: String::new(), sep: self.sep };
        assert(r@.steps =~= self@.steps.drop_last());
        assert(r@.tail =~= Seq::empty());
        Some(r)
    }

    pub fn file_name(&self) -> (r: Option<&Part>)
        ensures
            r matches Some(name) ==> path_file_name(self@) == Some(name@),
            r is None ==> path_file_name(self@) is None,
    {
        let n = self.steps.len();
        if n == 0 {
            return None;
        }
        assert(self@.steps.last() == self.steps@[n - 1]@);
        match &self.steps[n - 1].part {
            Part::Name(_) | Part::Raw(_, _) => Some(&self.steps[n - 1].part),
            _ => None,
        }
    }

    /// The file name's extension. Where the name is not Unicode this is the
    /// extension of the text that stands for it.
    pub fn extension(&self) -> (r: Option<String>)
        ensures
            r matches Some(ext) ==> path_extension(self@) == Some(ext@),
            r is None ==> path_extension(self@) is None,
    {
        match self.file_name() {
            Some(name) => extension(name),
            None => None,
        }
    }

    pub fn is_absolute(&self) -> (r: bool)
        ensures
            r == self@.is_absolute(),
    {
        if self.steps.len() == 0 {
            return false;
        }
        assert(self@.steps[0] == self.steps@[0]@);
        match &self.steps[0].part {
            Part::Root(_) => true,
            _ => false,
        }
    }

    pub fn is_empty(&self) -> (r: bool)
        ensures
            r == (self@.steps.len() == 0),
    {
        self.steps.len() == 0
    }

    /// Whether the two have the same components.
    pub fn same(&self, other: &FsPath) -> (r: bool)
        ensures
            r == same_path(self@, other@),
    {
        if self.steps.len() != other.steps.len() {
            assert(self@.parts().len() != other@.parts().len());
            return false;
        }
        self.starts_with(other)
    }

    /// Whether this is `base` or lies inside it.
    pub fn starts_with(&self, base: &FsPath) -> (r: bool)
        ensures
            r == is_inside(self@, base@),
            r && self@.steps.len() == base@.steps.len() ==> same_path(self@, base@),
            same_path(self@, base@) ==> r,
    {
        let ghost own = self@.parts();
        let ghost other = base@.parts();
        assert(own.subrange(0, own.len() as int) =~= own);
        if base.steps.len() > self.steps.len() {
            return false;
        }
        for i in 0..base.steps.len()
            invariant
                own == self@.parts(),
                other == base@.parts(),
                base.steps.len() <= self.steps.len(),
                own.subrange(0, own.len() as int) == own,
                forall|j: int| 0 <= j < i ==> own[j] == other[j],
        {
            assert(own[i as int] == self.steps@[i as int].part@);
            assert(other[i as int] == base.steps@[i as int].part@);
            if !self.steps[i].part.same(&base.steps[i].part) {
                assert(own.subrange(0, other.len() as int)[i as int] != other[i as int]);
                return false;
            }
        }
        assert(own.subrange(0, other.len() as int) =~= other);
        assert(own.len() == other.len() ==> own =~= other);
        true
    }

    /// What is left of this path below `base`, if it is inside.
    pub fn strip_prefix(&self, base: &FsPath) -> (r: Option<FsPath>)
        ensures
            is_inside(self@, base@) <==> r is Some,
            r matches Some(rest) ==> rest@ == self@.below(base@.steps.len() as int),
    {
        if !self.starts_with(base) {
            return None;
        }
        let from = base.steps.len();
        let n = self.steps.len();
        assert(base@.parts().len() <= self@.parts().len());
        let mut steps: Vec<Step> = Vec::new();
        for i in from..n
            invariant
                from <= n == self.steps.len(),
                steps@.len() == i - from,
                forall|j: int|
                    0 <= j < steps@.len() ==> (#[trigger] steps@[j])@ == self@.below(
                        from as int,
                    ).steps[j],
        {
            let step = &self.steps[i];
            let gap = if i == from {
                String::new()
            } else {
                step.gap.clone()
            };
            let next = Step { gap, text: step.text.clone(), part: step.part.clone() };
            assert(next@ =~= self@.below(from as int).steps[i - from]);
            steps.push(next);
        }
        let r = FsPath { steps, tail: String::new(), sep: self.sep };
        assert(r@ =~= self@.below(from as int));
        Some(r)
    }

    /// The path as it is written.
    pub fn display(&self) -> (r: String)
        ensures
            r@ == self@.text(),
    {
        let ghost all = views(self.steps@);
        let mut out = String::new();
        assert(out@ =~= steps_text(all.take(0)));
        for i in 0..self.steps.len()
            invariant
                all == views(self.steps@),
                out@ == steps_text(all.take(i as int)),
        {
            assert(all.take(i + 1).drop_last() =~= all.take(i as int));
            assert(all.take(i + 1).last() == self.steps@[i as int]@);
            out.append(self.steps[i].gap.as_str());
            out.append(self.steps[i].text.as_str());
        }
        assert(all.take(all.len() as int) =~= all);
        out.append(self.tail.as_str());
        out
    }
}

/// The extension of a name.
pub fn extension(name: &Part) -> (r: Option<String>)
    ensures
        r matches Some(ext) ==> extension_of(part_text(name@)) == Some(ext@),
        r is None ==> extension_of(part_text(name@)) is None,
{
    let chars = chars_of(name.text().as_str());
    let n = chars.len();
    let mut i: usize = n;
    assert(chars@.take(n as int) =~= chars@);
    while i > 0 && chars[i - 1] != '.'
        invariant
            n == chars.len(),
            i <= n,
            last_dot(chars@) == last_dot(chars@.take(i as int)),
        decreases i,
    {
        assert(chars@.take(i as int).drop_last() =~= chars@.take(i - 1));
        i = i - 1;
    }
    if i >= 2 {
        assert(chars@.subrange(i as int, n as int) =~= chars@.skip(i as int));
        Some(string_of(&chars, i, n))
    } else {
        None
    }
}

fn le_path(a: &FsPath, b: &FsPath) -> (r: bool)
    ensures
        r == path_leq(a@, b@),
{
    let mut i: usize = 0;
    let ghost x = a@.parts();
    let ghost y = b@.parts();
    assert(x.skip(0) =~= x);
    assert(y.skip(0) =~= y);
    while i < a.steps.len() && i < b.steps.len()
        invariant
            x == a@.parts(),
            y == b@.parts(),
            i <= a.steps.len(),
            i <= b.steps.len(),
            parts_leq(x, y) == parts_leq(x.skip(i as int), y.skip(i as int)),
        decreases a.steps.len() - i,
    {
        let p = &a.steps[i].part;
        let q = &b.steps[i].part;
        let below = le_bytes(p.bytes(), q.bytes());
        let above = le_bytes(q.bytes(), p.bytes());
        proof {
            lemma_bytes_total(part_bytes(p@), part_bytes(q@));
            assert(x.skip(i as int)[0] == p@);
            assert(y.skip(i as int)[0] == q@);
            if part_alike(p@, q@) {
                lemma_bytes_total(part_bytes(q@), part_bytes(p@));
            }
        }
        if p.rank() != q.rank() {
            return p.rank() < q.rank();
        }
        if !(below && above) {
            return below;
        }
        assert(x.skip(i as int).drop_first() =~= x.skip(i + 1));
        assert(y.skip(i as int).drop_first() =~= y.skip(i + 1));
        i = i + 1;
    }
    i == a.steps.len()
}

impl Ranked for FsPath {
    open spec fn leq(a: PathView, b: PathView) -> bool {
        path_leq(a, b)
    }

    proof fn leq_total(a: PathView, b: PathView) {
        lemma_path_total(a, b);
    }

    proof fn leq_transitive(a: PathView, b: PathView, c: PathView) {
        lemma_path_transitive(a, b, c);
    }

    fn le(&self, other: &Self) -> (r: bool) {
        le_path(self, other)
    }
}

// ---------------------------------------------------------------------------
// Laws
// ---------------------------------------------------------------------------

/// A path lies inside a directory exactly when it starts with the components of
/// that directory, all of them.
pub proof fn inside_means_whole_components(p: PathView, base: PathView)
    ensures
        is_inside(p, base) <==> p.steps.len() >= base.steps.len() && forall|i: int|
            0 <= i < base.steps.len() ==> (#[trigger] p.steps[i]).part == base.steps[i].part,
{
    let a = p.parts();
    let b = base.parts();
    if is_inside(p, base) {
        assert forall|i: int| 0 <= i < base.steps.len() implies (#[trigger] p.steps[i]).part
            == base.steps[i].part by {
            assert(a.subrange(0, b.len() as int)[i] == b[i]);
        }
    }
    if p.steps.len() >= base.steps.len() && forall|i: int|
        0 <= i < base.steps.len() ==> (#[trigger] p.steps[i]).part == base.steps[i].part {
        assert forall|i: int| 0 <= i < b.len() implies a[i] == b[i] by {
            assert(p.steps[i].part == base.steps[i].part);
        }
        assert(a.subrange(0, b.len() as int) =~= b);
    }
}

/// What stands between two `/` is a component: it is named as it is written,
/// and a path of several pieces has theirs one after the other.
pub proof fn pieces_are_components(piece: Seq<char>, rest: Seq<char>, at_start: bool)
    requires
        piece.len() > 0,
        forall|i: int| 0 <= i < piece.len() ==> #[trigger] piece[i] != '/',
        piece != "."@,
        piece != ".."@,
    ensures
        parts_of(piece, at_start) == seq![PartView::Name(piece)],
        parts_of(piece + "/"@ + rest, at_start) == seq![PartView::Name(piece)] + parts_of(
            rest,
            false,
        ),
{
    reveal_strlit("/");
    let all = piece + "/"@ + rest;
    let n = piece.len() as int;
    lemma_before_at(piece, '/', n);
    assert(piece.take(n) =~= piece);
    assert forall|i: int| 0 <= i < n implies #[trigger] all[i] != '/' by {
        assert(all[i] == piece[i]);
    }
    lemma_before_at(all, '/', n);
    assert(all.take(n) =~= piece);
    assert(all.skip(n + 1) =~= rest);
}

proof fn lemma_dot_behind(stem: Seq<char>, ext: Seq<char>)
    requires
        forall|i: int| 0 <= i < ext.len() ==> #[trigger] ext[i] != '.',
    ensures
        last_dot(stem.push('.') + ext) == stem.len(),
    decreases ext.len(),
{
    let all = stem.push('.') + ext;
    if ext.len() == 0 {
        assert(all =~= stem.push('.'));
    } else {
        assert(all.last() == ext[ext.len() - 1]);
        let front = ext.drop_last();
        assert forall|i: int| 0 <= i < front.len() implies #[trigger] front[i] != '.' by {
            assert(ext[i] != '.');
        }
        lemma_dot_behind(stem, front);
        assert(all.drop_last() =~= stem.push('.') + front);
    }
}

proof fn lemma_last_dot_splits(name: Seq<char>)
    ensures
        -1 <= last_dot(name) < name.len(),
        last_dot(name) >= 0 ==> name[last_dot(name)] == '.',
        forall|i: int| last_dot(name) < i < name.len() ==> #[trigger] name[i] != '.',
    decreases name.len(),
{
    if name.len() > 0 && name.last() != '.' {
        lemma_last_dot_splits(name.drop_last());
        assert forall|i: int| last_dot(name) < i < name.len() implies #[trigger] name[i] != '.' by {
            if i < name.len() - 1 {
                assert(name.drop_last()[i] == name[i]);
            }
        }
    }
}

/// The extension of a name is what follows its last dot, where something stands
/// ahead of that.
pub proof fn an_extension_follows_the_last_dot(stem: Seq<char>, ext: Seq<char>)
    requires
        forall|i: int| 0 <= i < ext.len() ==> #[trigger] ext[i] != '.',
    ensures
        stem.len() > 0 ==> extension_of(stem.push('.') + ext) == Some(ext),
        stem.len() == 0 ==> extension_of(stem.push('.') + ext) is None,
        extension_of(ext) is None,
{
    lemma_dot_behind(stem, ext);
    assert((stem.push('.') + ext).skip(stem.len() as int + 1) =~= ext);
    lemma_last_dot_splits(ext);
}

/// No name has an extension in any other way.
pub proof fn every_extension_follows_a_dot(name: Seq<char>)
    ensures
        extension_of(name) matches Some(ext) ==> {
            let at = name.len() - ext.len() - 1;
            &&& at >= 1
            &&& name[at] == '.'
            &&& name.skip(at + 1) == ext
            &&& forall|i: int| 0 <= i < ext.len() ==> #[trigger] ext[i] != '.'
        },
{
    lemma_last_dot_splits(name);
    if extension_of(name) is Some {
        let ext = extension_of(name)->0;
        assert forall|i: int| 0 <= i < ext.len() implies #[trigger] ext[i] != '.' by {
            assert(name[last_dot(name) + 1 + i] != '.');
        }
    }
}

/// The characters of the last component, from its end; a separator stands ahead
/// of it.
pub open spec fn tail_char(p: Parts, j: int) -> char {
    match p.last() {
        PartView::Name(text) => if j < text.len() {
            text[text.len() - 1 - j]
        } else {
            '/'
        },
        _ => '/',
    }
}

proof fn lemma_last_piece(s: Seq<char>, at_start: bool)
    requires
        s.len() > 0,
        s.last() != '/',
        s.last() != '.',
    ensures
        parts_of(s, at_start).len() > 0,
        parts_of(s, at_start).last() is Name,
        ({
            let t = parts_of(s, at_start).last()->Name_0;
            &&& 0 < t.len() <= s.len()
            &&& forall|j: int| 0 <= j < t.len() ==> #[trigger] t[j] == s[s.len() - t.len() + j]
            &&& forall|j: int| 0 <= j < t.len() ==> #[trigger] t[j] != '/'
            &&& t.len() == s.len() || s[s.len() - t.len() - 1] == '/'
        }),
    decreases s.len(),
{
    let piece = before(s, '/');
    lemma_before(s, '/');
    reveal_strlit(".");
    reveal_strlit("..");
    if piece.len() < s.len() {
        let rest = s.skip(piece.len() as int + 1);
        assert(s[piece.len() as int] == '/');
        assert(rest.len() > 0);
        assert(rest.last() == s.last());
        lemma_last_piece(rest, false);
        let t = parts_of(rest, false).last()->Name_0;
        assert(parts_of(s, at_start).last() == parts_of(rest, false).last());
        assert forall|j: int| 0 <= j < t.len() implies #[trigger] t[j] == s[s.len() - t.len() + j] by {
            assert(t[j] == rest[rest.len() - t.len() + j]);
        }
        if t.len() < rest.len() {
            assert(rest[rest.len() - t.len() - 1] == s[s.len() - t.len() - 1]);
        }
    } else {
        assert(piece =~= s);
        if piece == "."@ || piece == ".."@ {
            assert(piece[piece.len() - 1] == '.');
        }
        assert(parts_of(s, at_start).last() == PartView::Name(s));
    }
}

/// A written path ends in the characters of its last component, read from its
/// end up to the separator ahead of it.
proof fn lemma_tail_char(s: Seq<char>, at_start: bool, j: int)
    requires
        s.len() > 0,
        s.last() != '/',
        s.last() != '.',
        0 <= j <= s.len(),
        j > 0 ==> tail_char(parts_of(s, at_start), j - 1) != '/',
    ensures
        parts_of(s, at_start).len() > 0,
        tail_char(parts_of(s, at_start), j) == if j < s.len() {
            s[s.len() - 1 - j]
        } else {
            '/'
        },
{
    lemma_last_piece(s, at_start);
    let t = parts_of(s, at_start).last()->Name_0;
    if j < t.len() {
        assert(t[t.len() - 1 - j] == s[s.len() - t.len() + (t.len() - 1 - j)]);
    }
}

/// The last component of a path is the end of what was joined to it.
pub proof fn lemma_joined_tail(p: PathView, s: Seq<char>, j: int)
    requires
        s.len() > 0,
        s.last() != '/',
        s.last() != '.',
        0 <= j <= s.len(),
        j > 0 ==> tail_char(path_join(p, s).parts(), j - 1) != '/',
    ensures
        path_join(p, s).parts().len() > 0,
        tail_char(path_join(p, s).parts(), j) == if j < s.len() {
            s[s.len() - 1 - j]
        } else {
            '/'
        },
{
    a_joined_path_is_written_behind(p, s);
    let at_start = !is_rooted(s) && p.steps.len() == 0;
    lemma_last_piece(s, at_start);
    assert(path_join(p, s).parts().last() == parts_of(s, at_start).last());
    lemma_tail_char(s, at_start, j);
}

/// The last component of a path is the end of the text that spells it.
pub proof fn lemma_spelt_tail(s: Seq<char>, j: int)
    requires
        s.len() > 0,
        s.last() != '/',
        s.last() != '.',
        0 <= j <= s.len(),
        j > 0 ==> tail_char(path_of(s).parts(), j - 1) != '/',
    ensures
        path_of(s).parts().len() > 0,
        tail_char(path_of(s).parts(), j) == if j < s.len() {
            s[s.len() - 1 - j]
        } else {
            '/'
        },
{
    a_path_is_shown_as_written(s, '/');
    let at_start = !is_rooted(s);
    lemma_last_piece(s, at_start);
    assert(path_of(s).parts().last() == parts_of(s, at_start).last());
    lemma_tail_char(s, at_start, j);
}

/// The last component of a path is the end of what it was descended by.
pub proof fn lemma_descended_tail(p: PathView, s: Seq<char>, j: int)
    requires
        s.len() > 0,
        s.last() != '/',
        s.last() != '.',
        0 <= j <= s.len(),
        j > 0 ==> tail_char(path_descend(p, s).parts(), j - 1) != '/',
    ensures
        path_descend(p, s).parts().len() > 0,
        tail_char(path_descend(p, s).parts(), j) == if j < s.len() {
            s[s.len() - 1 - j]
        } else {
            '/'
        },
{
    descending_is_joining(p, s);
    a_joined_path_is_written_behind(p, s);
    lemma_joined_tail(p, s, j);
}

/// Of two paths that part at some component, the one comes first whose component
/// there has the smaller bytes: a smaller one at their first difference, or fewer
/// of them.
pub proof fn paths_are_ordered_by_their_first_difference(
    common: Parts,
    x: Seq<char>,
    y: Seq<char>,
    a: Parts,
    b: Parts,
    i: int,
)
    requires
        0 <= i <= encode_utf8(x).len(),
        i < encode_utf8(y).len(),
        encode_utf8(x).take(i) == encode_utf8(y).take(i),
        i == encode_utf8(x).len() || encode_utf8(x)[i] < encode_utf8(y)[i],
    ensures
        parts_leq(common + seq![PartView::Name(x)] + a, common + seq![PartView::Name(y)] + b),
        !parts_leq(common + seq![PartView::Name(y)] + b, common + seq![PartView::Name(x)] + a),
    decreases common.len(),
{
    let p = common + seq![PartView::Name(x)] + a;
    let q = common + seq![PartView::Name(y)] + b;
    if common.len() == 0 {
        lemma_bytes_differ(encode_utf8(x), encode_utf8(y), i);
        assert(p[0] == PartView::Name(x) && q[0] == PartView::Name(y));
        lemma_bytes_total(encode_utf8(x), encode_utf8(x));
    } else {
        let rest = common.drop_first();
        assert(p[0] == common[0] && q[0] == common[0]);
        assert(p.drop_first() =~= rest + seq![PartView::Name(x)] + a);
        assert(q.drop_first() =~= rest + seq![PartView::Name(y)] + b);
        paths_are_ordered_by_their_first_difference(rest, x, y, a, b, i);
    }
}

proof fn lemma_bytes_differ(a: Seq<u8>, b: Seq<u8>, i: int)
    requires
        0 <= i <= a.len(),
        i < b.len(),
        a.take(i) == b.take(i),
        i == a.len() || a[i] < b[i],
    ensures
        bytes_leq(a, b),
        !bytes_leq(b, a),
    decreases a.len(),
{
    if i > 0 {
        assert(a[0] == a.take(i)[0] && b[0] == b.take(i)[0]);
        assert(a.drop_first().take(i - 1) =~= a.take(i).drop_first());
        assert(b.drop_first().take(i - 1) =~= b.take(i).drop_first());
        lemma_bytes_differ(a.drop_first(), b.drop_first(), i - 1);
    }
}

/// A root comes ahead of `.`, that ahead of `..`, and that ahead of any name.
pub proof fn kinds_of_components_are_ordered(
    root: Seq<char>,
    name: Seq<char>,
    a: Parts,
    b: Parts,
)
    ensures
        !parts_leq(seq![PartView::Dot] + a, seq![PartView::Root(root)] + b),
        !parts_leq(seq![PartView::DotDot] + a, seq![PartView::Dot] + b),
        !parts_leq(seq![PartView::Name(name)] + a, seq![PartView::DotDot] + b),
{
    let dot = seq![PartView::Dot] + a;
    let up = seq![PartView::DotDot] + a;
    let named = seq![PartView::Name(name)] + a;
    assert(dot[0] == PartView::Dot && up[0] == PartView::DotDot);
    assert(named[0] == PartView::Name(name));
    assert((seq![PartView::Root(root)] + b)[0] == PartView::Root(root));
    assert((seq![PartView::Dot] + b)[0] == PartView::Dot);
    assert((seq![PartView::DotDot] + b)[0] == PartView::DotDot);
}

/// An entry of a directory is written behind it with one separator between, which
/// is not repeated where the directory ends in one, and left out behind nothing
/// and behind a bare drive. Its name is the entry's, and its parent the directory.
pub proof fn an_entry_stands_below_its_directory(p: PathView, name: Seq<char>)
    ensures
        ({
            let entry = p.child(PartView::Name(name));
            let written = p.text();
            let apart = written.len() > 0 && written.last() != '/' && written.last() != p.sep && !(
            p.steps.len() == 1 && p.steps[0].part is Root && written.last() == ':');
            &&& entry.parts() == p.parts().push(PartView::Name(name))
            &&& apart ==> entry.text() == written.push(p.sep) + name
            &&& !apart ==> entry.text() == written + name
            &&& path_file_name(entry) == Some(PartView::Name(name))
            &&& path_parent(entry) matches Some(parent) && parent.parts() == p.parts()
            &&& entry.is_absolute() <==> p.is_absolute()
        }),
{
    let entry = p.child(PartView::Name(name));
    assert(entry.steps.drop_last() =~= p.steps);
    assert(entry.parts() =~= p.parts().push(PartView::Name(name)));
    assert(entry.text() =~= steps_text(p.steps) + p.next_gap() + name);
    if p.needs_sep() {
        assert(entry.text() =~= p.text().push(p.sep) + name);
    } else {
        assert(entry.text() =~= p.text() + name);
    }
    if let Some(parent) = path_parent(entry) {
        assert(parent.parts() =~= p.parts());
    }
    if p.steps.len() > 0 {
        assert(entry.steps[0] == p.steps[0]);
    }
}

/// A root and the empty path have no parent and no name, and neither have `.` and
/// `..` a name. A path is absolute that starts with a root.
pub proof fn a_root_has_no_parent(p: PathView)
    ensures
        path_parent(p) is None <==> p.parts().len() == 0 || p.parts().last() is Root,
        path_file_name(p) is None <==> p.parts().len() == 0 || p.parts().last() is Root
            || p.parts().last() is Dot || p.parts().last() is DotDot,
        p.is_absolute() <==> p.parts().len() > 0 && p.parts()[0] is Root,
        p.is_bare_drive() <==> p.parts().len() == 1 && p.parts()[0] is Root && p.text().len() > 0
            && p.text().last() == ':',
{
}

} // verus!
